//! Module metadata: the `module.prop` parser and its validation rules.
//!
//! A property file is a sequence of lines; each line with an `=` contributes
//! one key/value pair (both sides trimmed), later lines winning over earlier
//! ones; lines without an `=` are ignored.  A parsed map is then validated:
//! `id`, `name` and `description` must be present and non-empty, `version`
//! must parse as a signed 32-bit integer, an optional `skip_mount` must be a
//! case-insensitive boolean, and `id` must equal the name of the directory
//! the file sits in.

use vstd::prelude::*;
use vstd::string::*;

use crate::strutil::{
    eq_nocase, find_char, find_from, int_value, parse_i32, parses_as_i32, spec_trim, str_eq,
    str_eq_nocase, trim_str,
};

verus! {

/// Key/value record parsed from a property file, keyed by trimmed key,
/// later occurrences of a key replacing earlier ones.
pub struct PropMap {
    entries: Vec<(String, String)>,
}

/// The map described by an entry list, in insertion order.
pub open spec fn map_of(entries: Seq<(String, String)>) -> Map<Seq<char>, Seq<char>>
    decreases entries.len(),
{
    if entries.len() == 0 {
        Map::empty()
    } else {
        map_of(entries.drop_last()).insert(entries.last().0@, entries.last().1@)
    }
}

impl View for PropMap {
    type V = Map<Seq<char>, Seq<char>>;

    closed spec fn view(&self) -> Map<Seq<char>, Seq<char>> {
        map_of(self.entries@)
    }
}

proof fn lemma_map_of_found(entries: Seq<(String, String)>, i: int)
    requires
        0 <= i < entries.len(),
        forall|j: int| i < j < entries.len() ==> (#[trigger] entries[j]).0@ != entries[i].0@,
    ensures
        map_of(entries).dom().contains(entries[i].0@),
        map_of(entries)[entries[i].0@] == entries[i].1@,
    decreases entries.len(),
{
    if i < entries.len() - 1 {
        assert(entries.drop_last()[i] == entries[i]);
        assert(forall|j: int|
            i < j < entries.drop_last().len() ==> (#[trigger] entries.drop_last()[j]).0@
                != entries.drop_last()[i].0@);
        lemma_map_of_found(entries.drop_last(), i);
    }
}

proof fn lemma_map_of_absent(entries: Seq<(String, String)>, key: Seq<char>)
    requires
        forall|j: int| 0 <= j < entries.len() ==> (#[trigger] entries[j]).0@ != key,
    ensures
        !map_of(entries).dom().contains(key),
    decreases entries.len(),
{
    if entries.len() > 0 {
        assert(forall|j: int|
            0 <= j < entries.drop_last().len() ==> (#[trigger] entries.drop_last()[j]).0@ != key);
        lemma_map_of_absent(entries.drop_last(), key);
    }
}

impl PropMap {
    pub fn new() -> (r: PropMap)
        ensures
            r@ == Map::<Seq<char>, Seq<char>>::empty(),
    {
        PropMap { entries: Vec::new() }
    }

    pub fn insert(&mut self, key: String, value: String)
        ensures
            final(self)@ == old(self)@.insert(key@, value@),
    {
        self.entries.push((key, value));
        proof {
            assert(self.entries@.drop_last() =~= old(self).entries@);
        }
    }

    /// Value under `key`: that of the last line that set it.
    pub fn get(&self, key: &str) -> (r: Option<String>)
        ensures
            match r {
                Some(v) => self@.dom().contains(key@) && v@ == self@[key@],
                None => !self@.dom().contains(key@),
            },
    {
        let n = self.entries.len();
        let mut i: usize = n;
        while i > 0
            invariant
                i <= n,
                n == self.entries@.len(),
                forall|j: int| i <= j < n ==> (#[trigger] self.entries@[j]).0@ != key@,
            decreases i,
        {
            i = i - 1;
            if str_eq(self.entries[i].0.as_str(), key) {
                proof {
                    lemma_map_of_found(self.entries@, i as int);
                }
                return Some(self.entries[i].1.clone());
            }
        }
        proof {
            lemma_map_of_absent(self.entries@, key@);
        }
        None
    }
}

/// Effect of one property-file line on the accumulated map: the line is split
/// at its first `=`, both sides trimmed; a line without `=` changes nothing.
pub open spec fn apply_line(m: Map<Seq<char>, Seq<char>>, line: Seq<char>) -> Map<
    Seq<char>,
    Seq<char>,
> {
    match find_from(line, '=', 0) {
        None => m,
        Some(k) => m.insert(spec_trim(line.take(k)), spec_trim(line.skip(k + 1))),
    }
}

proof fn lemma_find_from_bounds(s: Seq<char>, c: char, i: int)
    ensures
        match find_from(s, c, i) {
            Some(j) => 0 <= j < s.len() && i <= j && s[j] == c,
            None => true,
        },
    decreases s.len() - i,
{
    if !(i < 0 || i >= s.len()) && s[i] != c {
        lemma_find_from_bounds(s, c, i + 1);
    }
}

/// The map described by a whole property file: its lines applied in order.
pub open spec fn parse_lines(m: Map<Seq<char>, Seq<char>>, s: Seq<char>) -> Map<
    Seq<char>,
    Seq<char>,
>
    decreases s.len(),
    via parse_lines_dec
{
    if s.len() == 0 {
        m
    } else {
        match find_from(s, '\n', 0) {
            None => apply_line(m, s),
            Some(j) => parse_lines(apply_line(m, s.take(j)), s.skip(j + 1)),
        }
    }
}

#[via_fn]
proof fn parse_lines_dec(m: Map<Seq<char>, Seq<char>>, s: Seq<char>) {
    lemma_find_from_bounds(s, '\n', 0);
}

pub open spec fn parsed_props(s: Seq<char>) -> Map<Seq<char>, Seq<char>> {
    parse_lines(Map::empty(), s)
}

fn apply_line_exec(line: &str, map: &mut PropMap)
    ensures
        final(map)@ == apply_line(old(map)@, line@),
{
    let n = line.unicode_len();
    match find_char(line, '=') {
        None => {},
        Some(k) => {
            proof {
                lemma_find_from_bounds(line@, '=', 0);
            }
            let key = trim_str(line.substring_char(0, k));
            let val = trim_str(line.substring_char(k + 1, n));
            proof {
                assert(line@.subrange(0, k as int) =~= line@.take(k as int));
                assert(line@.subrange(k + 1, n as int) =~= line@.skip(k + 1));
            }
            map.insert(key.to_owned(), val.to_owned());
        },
    }
}

fn parse_lines_exec(s: &str, map: &mut PropMap)
    ensures
        final(map)@ == parse_lines(old(map)@, s@),
    decreases s@.len(),
{
    let n = s.unicode_len();
    if n == 0 {
        return ;
    }
    match find_char(s, '\n') {
        None => apply_line_exec(s, map),
        Some(j) => {
            proof {
                lemma_find_from_bounds(s@, '\n', 0);
            }
            let line = s.substring_char(0, j);
            proof {
                assert(line@ =~= s@.take(j as int));
            }
            apply_line_exec(line, map);
            let rest = s.substring_char(j + 1, n);
            proof {
                assert(rest@ =~= s@.skip(j + 1));
            }
            parse_lines_exec(rest, map);
        },
    }
}

/// Parse a property file into its key/value map.
pub fn parse_props(content: &str) -> (r: PropMap)
    ensures
        r@ == parsed_props(content@),
{
    let mut map = PropMap::new();
    parse_lines_exec(content, &mut map);
    map
}

/// The shape a property value is checked against.
#[derive(Debug)]
pub enum PropType {
    Text,
    Integer,
    Boolean,
}

/// Why a metadata record was rejected.
#[derive(Debug)]
pub enum ValidationError {
    Missing { key: String },
    Empty { key: String },
    NotAnInteger { key: String },
    NotABoolean { key: String },
    IdMismatch { id: String, dir_name: String },
}

/// `key` is present and its trimmed value is non-empty.
pub open spec fn text_ok(m: Map<Seq<char>, Seq<char>>, key: Seq<char>) -> bool {
    m.dom().contains(key) && spec_trim(m[key]).len() > 0
}

/// `key` is present and parses as a signed 32-bit integer.
pub open spec fn int_ok(m: Map<Seq<char>, Seq<char>>, key: Seq<char>) -> bool {
    m.dom().contains(key) && parses_as_i32(m[key])
}

/// `key` is present and reads `true` or `false`, ignoring ASCII case.
pub open spec fn bool_ok(m: Map<Seq<char>, Seq<char>>, key: Seq<char>) -> bool {
    m.dom().contains(key) && (eq_nocase(m[key], "true"@) || eq_nocase(m[key], "false"@))
}

/// Check one property of the map against the expected shape.
pub fn validate_prop(map: &PropMap, key: &str, prop_type: PropType) -> (r: Result<
    (),
    ValidationError,
>)
    ensures
        match r {
            Ok(()) => match prop_type {
                PropType::Text => text_ok(map@, key@),
                PropType::Integer => int_ok(map@, key@),
                PropType::Boolean => bool_ok(map@, key@),
            },
            Err(e) => match e {
                ValidationError::Missing { key: k } => k@ == key@ && !map@.dom().contains(key@),
                ValidationError::Empty { key: k } => k@ == key@ && prop_type is Text
                    && map@.dom().contains(key@) && spec_trim(map@[key@]).len() == 0,
                ValidationError::NotAnInteger { key: k } => k@ == key@ && prop_type is Integer
                    && map@.dom().contains(key@) && !parses_as_i32(map@[key@]),
                ValidationError::NotABoolean { key: k } => k@ == key@ && prop_type is Boolean
                    && map@.dom().contains(key@) && !(eq_nocase(map@[key@], "true"@) || eq_nocase(
                    map@[key@],
                    "false"@,
                )),
                ValidationError::IdMismatch { .. } => false,
            },
        },
{
    let v = match map.get(key) {
        Some(v) => v,
        None => {
            return Err(ValidationError::Missing { key: key.to_owned() });
        },
    };
    match prop_type {
        PropType::Text => {
            let t = trim_str(v.as_str());
            if t.unicode_len() == 0 {
                Err(ValidationError::Empty { key: key.to_owned() })
            } else {
                Ok(())
            }
        },
        PropType::Integer => {
            match parse_i32(v.as_str()) {
                Some(_) => Ok(()),
                None => Err(ValidationError::NotAnInteger { key: key.to_owned() }),
            }
        },
        PropType::Boolean => {
            if str_eq_nocase(v.as_str(), "true") || str_eq_nocase(v.as_str(), "false") {
                Ok(())
            } else {
                Err(ValidationError::NotABoolean { key: key.to_owned() })
            }
        },
    }
}

/// A validated metadata record.
#[derive(Debug)]
pub struct ModuleProp {
    pub id: String,
    pub name: String,
    pub description: String,
    pub version: i32,
    pub skip_mount: bool,
}

/// `skip_mount` is either absent or a case-insensitive boolean.
pub open spec fn skip_mount_ok(m: Map<Seq<char>, Seq<char>>) -> bool {
    !m.dom().contains("skip_mount"@) || eq_nocase(m["skip_mount"@], "true"@) || eq_nocase(
        m["skip_mount"@],
        "false"@,
    )
}

/// The effective `skip_mount` value: `true` only when the key is present and
/// reads `true`; absent defaults to `false`.
pub open spec fn spec_skip_mount(m: Map<Seq<char>, Seq<char>>) -> bool {
    m.dom().contains("skip_mount"@) && eq_nocase(m["skip_mount"@], "true"@)
}

/// All field checks pass, in isolation from the directory name.
pub open spec fn fields_valid(m: Map<Seq<char>, Seq<char>>) -> bool {
    text_ok(m, "id"@) && text_ok(m, "name"@) && text_ok(m, "description"@) && int_ok(
        m,
        "version"@,
    ) && skip_mount_ok(m)
}

/// The whole record is valid for a module living in directory `dir_name`.
pub open spec fn prop_valid(m: Map<Seq<char>, Seq<char>>, dir_name: Seq<char>) -> bool {
    fields_valid(m) && m["id"@] == dir_name
}

/// `e` is the first failure of the field checks alone, in checking order:
/// `id`, `name`, `description`, `version`, `skip_mount`.
pub open spec fn field_error_for(m: Map<Seq<char>, Seq<char>>, e: ValidationError) -> bool {
    match e {
        ValidationError::Missing { key } => !m.dom().contains(key@) && (key@ == "id"@ || (key@
            == "name"@ && text_ok(m, "id"@)) || (key@ == "description"@ && text_ok(m, "id"@)
            && text_ok(m, "name"@)) || (key@ == "version"@ && text_ok(m, "id"@) && text_ok(
            m,
            "name"@,
        ) && text_ok(m, "description"@))),
        ValidationError::Empty { key } => m.dom().contains(key@) && spec_trim(m[key@]).len() == 0
            && (key@ == "id"@ || (key@ == "name"@ && text_ok(m, "id"@)) || (key@ == "description"@
            && text_ok(m, "id"@) && text_ok(m, "name"@))),
        ValidationError::NotAnInteger { key } => key@ == "version"@ && text_ok(m, "id"@) && text_ok(
            m,
            "name"@,
        ) && text_ok(m, "description"@) && m.dom().contains("version"@) && !parses_as_i32(
            m["version"@],
        ),
        ValidationError::NotABoolean { key } => key@ == "skip_mount"@ && text_ok(m, "id"@)
            && text_ok(m, "name"@) && text_ok(m, "description"@) && int_ok(m, "version"@)
            && m.dom().contains("skip_mount"@) && !(eq_nocase(m["skip_mount"@], "true"@)
            || eq_nocase(m["skip_mount"@], "false"@)),
        ValidationError::IdMismatch { .. } => false,
    }
}

/// `e` is the first failure the whole validation runs into: a field check,
/// or last the directory cross-check.
pub open spec fn validation_error_for(
    m: Map<Seq<char>, Seq<char>>,
    dir_name: Seq<char>,
    e: ValidationError,
) -> bool {
    match e {
        ValidationError::IdMismatch { id, dir_name: d } => fields_valid(m) && id@ == m["id"@] && d@
            == dir_name && m["id"@] != dir_name,
        _ => field_error_for(m, e),
    }
}

/// Parse a property file and validate its fields, in isolation from any
/// directory name.  On success the record holds exactly the required keys
/// and the defaulted `skip_mount`; on failure the error names the first
/// field check that did not pass.
pub fn check_module_fields(content: &str) -> (r: Result<ModuleProp, ValidationError>)
    ensures
        ({
            let m = parsed_props(content@);
            match r {
                Ok(p) => fields_valid(m) && p.id@ == m["id"@] && p.name@ == m["name"@]
                    && p.description@ == m["description"@] && p.version as int == int_value(
                    m["version"@],
                ) && p.skip_mount == spec_skip_mount(m),
                Err(e) => !fields_valid(m) && field_error_for(m, e),
            }
        }),
{
    let map = parse_props(content);
    match validate_prop(&map, "id", PropType::Text) {
        Err(e) => {
            return Err(e);
        },
        Ok(()) => {},
    }
    match validate_prop(&map, "name", PropType::Text) {
        Err(e) => {
            return Err(e);
        },
        Ok(()) => {},
    }
    match validate_prop(&map, "description", PropType::Text) {
        Err(e) => {
            return Err(e);
        },
        Ok(()) => {},
    }
    match validate_prop(&map, "version", PropType::Integer) {
        Err(e) => {
            return Err(e);
        },
        Ok(()) => {},
    }
    let skip_mount: bool;
    match map.get("skip_mount") {
        Some(v) => {
            if str_eq_nocase(v.as_str(), "true") {
                skip_mount = true;
            } else if str_eq_nocase(v.as_str(), "false") {
                skip_mount = false;
                proof {
                    reveal_strlit("true");
                    reveal_strlit("false");
                }
            } else {
                return Err(ValidationError::NotABoolean { key: "skip_mount".to_owned() });
            }
        },
        None => {
            skip_mount = false;
        },
    }
    let id = match map.get("id") {
        Some(v) => v,
        None => {
            return Err(ValidationError::Missing { key: "id".to_owned() });
        },
    };
    let name = match map.get("name") {
        Some(v) => v,
        None => {
            return Err(ValidationError::Missing { key: "name".to_owned() });
        },
    };
    let description = match map.get("description") {
        Some(v) => v,
        None => {
            return Err(ValidationError::Missing { key: "description".to_owned() });
        },
    };
    let version_str = match map.get("version") {
        Some(v) => v,
        None => {
            return Err(ValidationError::Missing { key: "version".to_owned() });
        },
    };
    let version = match parse_i32(version_str.as_str()) {
        Some(v) => v,
        None => {
            return Err(ValidationError::NotAnInteger { key: "version".to_owned() });
        },
    };
    Ok(ModuleProp { id, name, description, version, skip_mount })
}

/// Parse and validate a whole property file for a module whose directory is
/// named `dir_name`: the field checks, then the cross-check that `id`
/// equals the directory name.
pub fn read_module_prop(content: &str, dir_name: &str) -> (r: Result<ModuleProp, ValidationError>)
    ensures
        ({
            let m = parsed_props(content@);
            match r {
                Ok(p) => prop_valid(m, dir_name@) && p.id@ == m["id"@] && p.name@ == m["name"@]
                    && p.description@ == m["description"@] && p.version as int == int_value(
                    m["version"@],
                ) && p.skip_mount == spec_skip_mount(m),
                Err(e) => !prop_valid(m, dir_name@) && validation_error_for(m, dir_name@, e),
            }
        }),
{
    let p = match check_module_fields(content) {
        Ok(p) => p,
        Err(e) => {
            return Err(e);
        },
    };
    if !str_eq(p.id.as_str(), dir_name) {
        return Err(ValidationError::IdMismatch { id: p.id, dir_name: dir_name.to_owned() });
    }
    Ok(p)
}

} // verus!
