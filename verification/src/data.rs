//! Reading data files: the YAML parser of `yaml-rust` reports events (a
//! mapping starts, a scalar, a sequence ends, ...) and the structure reader
//! builds values from them. Short-form function tags of CloudFormation
//! templates (`!Ref`, `!GetAtt`, ...) become their long-form mappings.
use vstd::prelude::*;
use crate::types::Location;
use crate::value::{Value, ValueModel, models, lemma_models, entry_models, lemma_entry_models, insert_model};
use crate::assoc::{keys_unique, map_insert, insert_entry};
use crate::text::{str_equal, to_owned_string, chars_of};
use crate::parser::lexical::digits_value;
use crate::text::is_ascii_digit;

verus! {

// ---------------------------------------------------------------------
// Events
// ---------------------------------------------------------------------

/// How a scalar was written.
#[derive(Debug, Clone, Copy, PartialEq, Eq, Structural)]
pub enum ScalarStyle {
    Any,
    Plain,
    SingleQuoted,
    DoubleQuoted,
    Literal,
    Foled,
}

/// What the YAML parser reports. A tag is its handle and its suffix.
#[derive(Debug)]
pub enum DataEvent {
    Nothing,
    StreamStart,
    StreamEnd,
    DocumentStart,
    DocumentEnd,
    Alias(usize),
    Scalar(String, ScalarStyle, usize, Option<(String, String)>),
    SequenceStart(usize, Option<(String, String)>),
    SequenceEnd,
    MappingStart(usize, Option<(String, String)>),
    MappingEnd,
}

// ---------------------------------------------------------------------
// Plain scalars
// ---------------------------------------------------------------------

/// How `yaml_rust::Yaml::from_str` reads a plain scalar.
#[derive(Debug)]
pub enum YamlScalar {
    Real(String),
    Integer(i64),
    Str(String),
    Boolean(bool),
    Null,
    Other,
}

/// The model of a `YamlScalar`.
pub enum YamlKind {
    Real(Seq<char>),
    Integer(i64),
    Str(Seq<char>),
    Boolean(bool),
    Null,
    Other,
}

impl YamlScalar {
    pub open spec fn kind(self) -> YamlKind {
        match self {
            YamlScalar::Real(s) => YamlKind::Real(s@),
            YamlScalar::Integer(i) => YamlKind::Integer(i),
            YamlScalar::Str(s) => YamlKind::Str(s@),
            YamlScalar::Boolean(b) => YamlKind::Boolean(b),
            YamlScalar::Null => YamlKind::Null,
            YamlScalar::Other => YamlKind::Other,
        }
    }
}

/// How `yaml_rust::Yaml::from_str` reads a plain scalar text.
pub uninterp spec fn yaml_scalar_of(text: Seq<char>) -> YamlKind;

/// Reads a plain scalar with `yaml_rust::Yaml::from_str`. The contract names
/// the result and states what the crate's source shows of it: `~` and `null`
/// are null, `true` and `false` are booleans, and a real or a string keeps
/// the text. Which texts are integers or reals is the crate's and is not
/// stated.
#[verifier::external_body]
pub(crate) fn yaml_from_str(text: &str) -> (r: YamlScalar)
    ensures
        r.kind() == yaml_scalar_of(text@),
        text@ == "~"@ || text@ == "null"@ ==> r is Null,
        text@ == "true"@ ==> r == YamlScalar::Boolean(true),
        text@ == "false"@ ==> r == YamlScalar::Boolean(false),
        r matches YamlScalar::Real(s) ==> s@ == text@,
        r matches YamlScalar::Str(s) ==> s@ == text@,
{
    match yaml_rust::Yaml::from_str(text) {
        yaml_rust::Yaml::Real(s) => YamlScalar::Real(s),
        yaml_rust::Yaml::Integer(i) => YamlScalar::Integer(i),
        yaml_rust::Yaml::String(s) => YamlScalar::Str(s),
        yaml_rust::Yaml::Boolean(b) => YamlScalar::Boolean(b),
        yaml_rust::Yaml::Null => YamlScalar::Null,
        _ => YamlScalar::Other,
    }
}

/// What `str::parse::<i64>` gives: an optional `+` or `-` and at least one
/// decimal digit, nothing else, with a value in range.
pub open spec fn i64_of_text(t: Seq<char>) -> Option<i64> {
    let p1: int = if t.len() > 0 && (t[0] == '+' || t[0] == '-') {
        1
    } else {
        0
    };
    let magnitude = digits_value(t, p1, t.len() as int) as int;
    let v = if p1 == 1 && t[0] == '-' {
        -magnitude
    } else {
        magnitude
    };
    if p1 < t.len() && (forall|k: int| p1 <= k < t.len() ==> is_ascii_digit(#[trigger] t[k]))
        && i64::MIN <= v <= i64::MAX {
        Some(v as i64)
    } else {
        None
    }
}

proof fn lemma_digits_value_monotone(t: Seq<char>, a: int, b: int, c: int)
    requires
        a <= b <= c,
    ensures
        digits_value(t, a, b) <= digits_value(t, a, c),
    decreases c - b,
{
    if b < c {
        lemma_digits_value_monotone(t, a, b, c - 1);
    }
}

/// Reads a decimal `i64` the way `str::parse::<i64>` does.
pub fn parse_i64(text: &str) -> (r: Option<i64>)
    ensures
        r == i64_of_text(text@),
{
    let t = chars_of(text);
    let n = t.len();
    let p1: usize = if n > 0 && (t[0] == '+' || t[0] == '-') {
        1
    } else {
        0
    };
    let negative = p1 == 1 && t[0] == '-';
    if p1 >= n {
        return None;
    }
    let mut i = p1;
    let mut acc: u64 = 0;
    while i < n
        invariant
            t@ == text@,
            n == t@.len(),
            p1 <= i <= n,
            p1 <= 1,
            p1 == (if t@.len() > 0 && (t@[0] == '+' || t@[0] == '-') {
                1usize
            } else {
                0usize
            }),
            negative == (p1 == 1 && t@[0] == '-'),
            forall|k: int| p1 <= k < i ==> is_ascii_digit(#[trigger] t@[k]),
            acc == digits_value(t@, p1 as int, i as int),
            acc <= 0x8000_0000_0000_0000,
        decreases n - i,
    {
        let c = t[i];
        if !('0' <= c && c <= '9') {
            proof {
                assert(!is_ascii_digit(t@[i as int]));
            }
            return None;
        }
        let d: u64 = ((c as u32) - ('0' as u32)) as u64;
        if acc > (0x8000_0000_0000_0000u64 - d) / 10 {
            proof {
                lemma_digits_value_monotone(t@, p1 as int, i + 1, n as int);
                assert(digits_value(t@, p1 as int, i + 1) == acc * 10 + d);
                assert(acc * 10 + d > 0x8000_0000_0000_0000) by (nonlinear_arith)
                    requires
                        acc > (0x8000_0000_0000_0000u64 - d) / 10,
                        d < 10,
                ;
            }
            return None;
        }
        acc = acc * 10 + d;
        i = i + 1;
    }
    if negative {
        if acc == 0x8000_0000_0000_0000u64 {
            Some(i64::MIN)
        } else {
            Some(-(acc as i64))
        }
    } else {
        if acc > 0x7fff_ffff_ffff_ffffu64 {
            None
        } else {
            Some(acc as i64)
        }
    }
}

// ---------------------------------------------------------------------
// Function tags
// ---------------------------------------------------------------------

/// The long form of a short-form function tag.
pub open spec fn long_form(s: Seq<char>) -> Option<Seq<char>> {
    if s == "Ref"@ {
        Some("Ref"@)
    } else if s == "GetAtt"@ {
        Some("Fn::GetAtt"@)
    } else if s == "Base64"@ {
        Some("Fn::Base64"@)
    } else if s == "Sub"@ {
        Some("Fn::Sub"@)
    } else if s == "GetAZs"@ {
        Some("Fn::GetAZs"@)
    } else if s == "ImportValue"@ {
        Some("Fn::ImportValue"@)
    } else if s == "Condition"@ {
        Some("Condition"@)
    } else if s == "RefAll"@ {
        Some("Fn::RefAll"@)
    } else if s == "Select"@ {
        Some("Fn::Select"@)
    } else if s == "Split"@ {
        Some("Fn::Split"@)
    } else if s == "Join"@ {
        Some("Fn::Join"@)
    } else if s == "FindInMap"@ {
        Some("Fn::FindInMap"@)
    } else if s == "And"@ {
        Some("Fn::And"@)
    } else if s == "Equals"@ {
        Some("Fn::Equals"@)
    } else if s == "Contains"@ {
        Some("Fn::Contains"@)
    } else if s == "EachMemberIn"@ {
        Some("Fn::EachMemberIn"@)
    } else if s == "EachMemberEquals"@ {
        Some("Fn::EachMemberEquals"@)
    } else if s == "ValueOf"@ {
        Some("Fn::ValueOf"@)
    } else if s == "If"@ {
        Some("Fn::If"@)
    } else if s == "Not"@ {
        Some("Fn::Not"@)
    } else if s == "Or"@ {
        Some("Fn::Or"@)
    } else {
        None
    }
}

/// The short-form tags that take a single value.
pub open spec fn single_value_tag(s: Seq<char>) -> bool {
    s == "Ref"@ || s == "Base64"@ || s == "Sub"@ || s == "GetAZs"@ || s == "ImportValue"@ || s
        == "GetAtt"@ || s == "Condition"@ || s == "RefAll"@
}

/// The short-form tags that take a sequence.
pub open spec fn sequence_value_tag(s: Seq<char>) -> bool {
    s == "GetAtt"@ || s == "Sub"@ || s == "Select"@ || s == "Split"@ || s == "Join"@ || s
        == "FindInMap"@ || s == "And"@ || s == "Equals"@ || s == "Contains"@ || s
        == "EachMemberIn"@ || s == "EachMemberEquals"@ || s == "ValueOf"@ || s == "If"@ || s
        == "Not"@ || s == "Or"@
}

pub struct StructureReader {
    stack: Vec<Value>,
    documents: Vec<Value>,
    last_container_index: Vec<usize>,
    func_support_index: Vec<(usize, (String, Location))>,
}


impl StructureReader {
    /// The long form of a short-form function tag (`GetAtt` is `Fn::GetAtt`).
    pub fn short_form_to_long(fn_ref: &str) -> (r: &'static str)
        requires
            long_form(fn_ref@) is Some,
        ensures
            long_form(fn_ref@) == Some(r@),
    {
        proof {
            reveal_strlit("And");
            reveal_strlit("Base64");
            reveal_strlit("Condition");
            reveal_strlit("Contains");
            reveal_strlit("EachMemberEquals");
            reveal_strlit("EachMemberIn");
            reveal_strlit("Equals");
            reveal_strlit("FindInMap");
            reveal_strlit("Fn::And");
            reveal_strlit("Fn::Base64");
            reveal_strlit("Fn::Contains");
            reveal_strlit("Fn::EachMemberEquals");
            reveal_strlit("Fn::EachMemberIn");
            reveal_strlit("Fn::Equals");
            reveal_strlit("Fn::FindInMap");
            reveal_strlit("Fn::GetAZs");
            reveal_strlit("Fn::GetAtt");
            reveal_strlit("Fn::If");
            reveal_strlit("Fn::ImportValue");
            reveal_strlit("Fn::Join");
            reveal_strlit("Fn::Not");
            reveal_strlit("Fn::Or");
            reveal_strlit("Fn::RefAll");
            reveal_strlit("Fn::Select");
            reveal_strlit("Fn::Split");
            reveal_strlit("Fn::Sub");
            reveal_strlit("Fn::ValueOf");
            reveal_strlit("GetAZs");
            reveal_strlit("GetAtt");
            reveal_strlit("If");
            reveal_strlit("ImportValue");
            reveal_strlit("Join");
            reveal_strlit("Not");
            reveal_strlit("Or");
            reveal_strlit("Ref");
            reveal_strlit("RefAll");
            reveal_strlit("Select");
            reveal_strlit("Split");
            reveal_strlit("Sub");
            reveal_strlit("ValueOf");
        }
        if str_equal(fn_ref, "Ref") {
            "Ref"
        } else if str_equal(fn_ref, "GetAtt") {
            "Fn::GetAtt"
        } else if str_equal(fn_ref, "Base64") {
            "Fn::Base64"
        } else if str_equal(fn_ref, "Sub") {
            "Fn::Sub"
        } else if str_equal(fn_ref, "GetAZs") {
            "Fn::GetAZs"
        } else if str_equal(fn_ref, "ImportValue") {
            "Fn::ImportValue"
        } else if str_equal(fn_ref, "Condition") {
            "Condition"
        } else if str_equal(fn_ref, "RefAll") {
            "Fn::RefAll"
        } else if str_equal(fn_ref, "Select") {
            "Fn::Select"
        } else if str_equal(fn_ref, "Split") {
            "Fn::Split"
        } else if str_equal(fn_ref, "Join") {
            "Fn::Join"
        } else if str_equal(fn_ref, "FindInMap") {
            "Fn::FindInMap"
        } else if str_equal(fn_ref, "And") {
            "Fn::And"
        } else if str_equal(fn_ref, "Equals") {
            "Fn::Equals"
        } else if str_equal(fn_ref, "Contains") {
            "Fn::Contains"
        } else if str_equal(fn_ref, "EachMemberIn") {
            "Fn::EachMemberIn"
        } else if str_equal(fn_ref, "EachMemberEquals") {
            "Fn::EachMemberEquals"
        } else if str_equal(fn_ref, "ValueOf") {
            "Fn::ValueOf"
        } else if str_equal(fn_ref, "If") {
            "Fn::If"
        } else if str_equal(fn_ref, "Not") {
            "Fn::Not"
        } else if str_equal(fn_ref, "Or") {
            "Fn::Or"
        } else {
            "Fn::Or"
        }
    }

    /// `!Tag value` for a single-value tag: the long form mapped to the
    /// value's text; `None` for other tags.
    pub fn handle_single_value_func_ref(val: String, loc: Location, fn_ref: &str) -> (r: Option<Value>)
        ensures
            single_value_tag(fn_ref@) ==> (r matches Some(v) && v.model() == ValueModel::Mapping(
                seq![(long_form(fn_ref@)->0, ValueModel::String(val@, loc))],
                loc,
            ) && v.wf()),
            !single_value_tag(fn_ref@) ==> r is None,
    {
        proof {
            reveal_strlit("Ref");
            reveal_strlit("Base64");
            reveal_strlit("Sub");
            reveal_strlit("GetAZs");
            reveal_strlit("ImportValue");
            reveal_strlit("GetAtt");
            reveal_strlit("Condition");
            reveal_strlit("RefAll");
        }
        if str_equal(fn_ref, "Ref") || str_equal(fn_ref, "Base64") || str_equal(fn_ref, "Sub")
            || str_equal(fn_ref, "GetAZs") || str_equal(fn_ref, "ImportValue") || str_equal(
            fn_ref,
            "GetAtt",
        ) || str_equal(fn_ref, "Condition") || str_equal(fn_ref, "RefAll") {
            let long = Self::short_form_to_long(fn_ref);
            let mut map: Vec<(String, Value)> = Vec::new();
            let key = to_owned_string(long);
            let value = Value::String(val, loc);
            map.push((key, value));
            proof {
                lemma_entry_models(map@);
                assert(map@[0] == (key, value));
                assert(value.model() == ValueModel::String(val@, loc));
                assert(value.wf());
                assert(entry_models(map@) =~= seq![(long_form(fn_ref@)->0, ValueModel::String(val@, loc))]);
            }
            let v = Value::Mapping(map, loc);
            proof {
                assert(v.wf());
            }
            Some(v)
        } else {
            None
        }
    }

    /// `!Tag [ ... ]` for a sequence tag: the long form mapped to `null`,
    /// which the sequence replaces once it is read; `None` for other tags.
    pub fn handle_sequence_value_func_ref(loc: Location, fn_ref: &str) -> (r: Option<Value>)
        ensures
            sequence_value_tag(fn_ref@) ==> (r matches Some(v) && v.model() == ValueModel::Mapping(
                seq![(long_form(fn_ref@)->0, ValueModel::Null(loc))],
                loc,
            ) && v.wf()),
            !sequence_value_tag(fn_ref@) ==> r is None,
    {
        proof {
            reveal_strlit("GetAtt");
            reveal_strlit("Sub");
            reveal_strlit("Select");
            reveal_strlit("Split");
            reveal_strlit("Join");
            reveal_strlit("FindInMap");
            reveal_strlit("And");
            reveal_strlit("Equals");
            reveal_strlit("Contains");
            reveal_strlit("EachMemberIn");
            reveal_strlit("EachMemberEquals");
            reveal_strlit("ValueOf");
            reveal_strlit("If");
            reveal_strlit("Not");
            reveal_strlit("Or");
        }
        if str_equal(fn_ref, "GetAtt") || str_equal(fn_ref, "Sub") || str_equal(fn_ref, "Select")
            || str_equal(fn_ref, "Split") || str_equal(fn_ref, "Join") || str_equal(fn_ref, "FindInMap")
            || str_equal(fn_ref, "And") || str_equal(fn_ref, "Equals") || str_equal(fn_ref, "Contains")
            || str_equal(fn_ref, "EachMemberIn") || str_equal(fn_ref, "EachMemberEquals") || str_equal(
            fn_ref,
            "ValueOf",
        ) || str_equal(fn_ref, "If") || str_equal(fn_ref, "Not") || str_equal(fn_ref, "Or") {
            let long = Self::short_form_to_long(fn_ref);
            let mut map: Vec<(String, Value)> = Vec::new();
            let key = to_owned_string(long);
            let value = Value::Null(loc);
            map.push((key, value));
            proof {
                lemma_entry_models(map@);
                assert(map@[0] == (key, value));
                assert(value.wf());
                assert(entry_models(map@) =~= seq![(long_form(fn_ref@)->0, ValueModel::Null(loc))]);
            }
            let v = Value::Mapping(map, loc);
            proof {
                assert(v.wf());
            }
            Some(v)
        } else {
            None
        }
    }
}

// ---------------------------------------------------------------------
// Scalars
// ---------------------------------------------------------------------

/// The value of a scalar tagged `!!type`.
pub open spec fn type_ref_model(val: Seq<char>, loc: Location, type_ref: Seq<char>) -> ValueModel {
    if type_ref == "bool"@ {
        if val == "true"@ {
            ValueModel::Bool(true, loc)
        } else if val == "false"@ {
            ValueModel::Bool(false, loc)
        } else {
            ValueModel::String(val, loc)
        }
    } else if type_ref == "int"@ {
        match i64_of_text(val) {
            Some(v) => ValueModel::Int(v, loc),
            None => ValueModel::BadValue(val, loc),
        }
    } else if type_ref == "float"@ {
        if crate::numeric::float_text(val) {
            ValueModel::Float(val, loc)
        } else {
            ValueModel::BadValue(val, loc)
        }
    } else if type_ref == "null"@ {
        if val == "~"@ || val == "null"@ {
            ValueModel::Null(loc)
        } else {
            ValueModel::BadValue(val, loc)
        }
    } else {
        ValueModel::String(val, loc)
    }
}

/// The value of an untagged plain scalar, by how YAML reads its text.
pub open spec fn plain_scalar_model(val: Seq<char>, loc: Location) -> ValueModel {
    match yaml_scalar_of(val) {
        YamlKind::Integer(i) => ValueModel::Int(i, loc),
        YamlKind::Real(_) => if crate::numeric::float_text(val) {
            ValueModel::Float(val, loc)
        } else {
            ValueModel::BadValue(val, loc)
        },
        YamlKind::Boolean(b) => ValueModel::Bool(b, loc),
        YamlKind::Str(s) => ValueModel::String(s, loc),
        YamlKind::Null => ValueModel::Null(loc),
        YamlKind::Other => ValueModel::String(val, loc),
    }
}

/// The value of a scalar event: `!!type` tags give typed values, `!Tag`
/// single-value function tags give their long-form mappings, quoted or
/// block scalars are strings, plain scalars are read as YAML reads them.
pub open spec fn scalar_model(
    val: Seq<char>,
    style: ScalarStyle,
    tag: Option<(Seq<char>, Seq<char>)>,
    loc: Location,
) -> ValueModel {
    match tag {
        Some((handle, suffix)) => if handle == "!!"@ {
            type_ref_model(val, loc, suffix)
        } else if handle == "!"@ && single_value_tag(suffix) {
            ValueModel::Mapping(seq![(long_form(suffix)->0, ValueModel::String(val, loc))], loc)
        } else {
            ValueModel::String(val, loc)
        },
        None => if style != ScalarStyle::Plain {
            ValueModel::String(val, loc)
        } else {
            plain_scalar_model(val, loc)
        },
    }
}

pub open spec fn tag_view(tag: Option<(String, String)>) -> Option<(Seq<char>, Seq<char>)> {
    match tag {
        Some((h, s)) => Some((h@, s@)),
        None => None,
    }
}

impl StructureReader {
    /// `!!type value`: `bool`, `int`, `float` and `null` read the text as
    /// that type (a text that does not read is a bad value, except for
    /// `bool`, where it stays a string); other types leave a string.
    pub fn handle_type_ref(val: String, loc: Location, type_ref: &str) -> (r: Value)
        ensures
            r.model() == type_ref_model(val@, loc, type_ref@),
            r.wf(),
    {
        proof {
            reveal_strlit("bool");
            reveal_strlit("int");
            reveal_strlit("float");
            reveal_strlit("null");
            reveal_strlit("true");
            reveal_strlit("false");
            reveal_strlit("~");
        }
        if str_equal(type_ref, "bool") {
            if str_equal(val.as_str(), "true") {
                Value::Bool(true, loc)
            } else if str_equal(val.as_str(), "false") {
                Value::Bool(false, loc)
            } else {
                Value::String(val, loc)
            }
        } else if str_equal(type_ref, "int") {
            match parse_i64(val.as_str()) {
                Some(v) => Value::Int(v, loc),
                None => Value::BadValue(val, loc),
            }
        } else if str_equal(type_ref, "float") {
            let chars = chars_of(val.as_str());
            if crate::numeric::float_text_exec(&chars) {
                Value::Float(val, loc)
            } else {
                Value::BadValue(val, loc)
            }
        } else if str_equal(type_ref, "null") {
            if str_equal(val.as_str(), "~") || str_equal(val.as_str(), "null") {
                Value::Null(loc)
            } else {
                Value::BadValue(val, loc)
            }
        } else {
            Value::String(val, loc)
        }
    }

    /// The value of a scalar event.
    pub fn scalar_value(
        val: String,
        style: ScalarStyle,
        tag: &Option<(String, String)>,
        loc: Location,
    ) -> (r: Value)
        ensures
            r.model() == scalar_model(val@, style, tag_view(*tag), loc),
            r.wf(),
    {
        proof {
            reveal_strlit("!!");
            reveal_strlit("!");
        }
        match tag {
            Some((handle, suffix)) => {
                if str_equal(handle.as_str(), "!!") {
                    Self::handle_type_ref(val, loc, suffix.as_str())
                } else if str_equal(handle.as_str(), "!") {
                    let ghost text = val@;
                    let single = Self::handle_single_value_func_ref(val.clone(), loc, suffix.as_str());
                    match single {
                        Some(v) => v,
                        None => Value::String(val, loc),
                    }
                } else {
                    Value::String(val, loc)
                }
            },
            None => {
                if style != ScalarStyle::Plain {
                    Value::String(val, loc)
                } else {
                    match yaml_from_str(val.as_str()) {
                        YamlScalar::Integer(i) => Value::Int(i, loc),
                        YamlScalar::Real(_) => {
                            let chars = chars_of(val.as_str());
                            if crate::numeric::float_text_exec(&chars) {
                                Value::Float(val, loc)
                            } else {
                                Value::BadValue(val, loc)
                            }
                        },
                        YamlScalar::Boolean(b) => Value::Bool(b, loc),
                        YamlScalar::Str(s) => Value::String(s, loc),
                        YamlScalar::Null => Value::Null(loc),
                        YamlScalar::Other => Value::String(val, loc),
                    }
                }
            },
        }
    }
}

// ---------------------------------------------------------------------
// The structure reader
// ---------------------------------------------------------------------

/// The model of a structure reader: the values being built (containers not
/// yet closed, then their elements), the documents read, where the open
/// containers are on the stack, and the open function tags.
pub struct ReaderModel {
    pub stack: Seq<ValueModel>,
    pub documents: Seq<ValueModel>,
    pub containers: Seq<usize>,
    pub funcs: Seq<(usize, Seq<char>, Location)>,
}

pub open spec fn funcs_model(fs: Seq<(usize, (String, Location))>) -> Seq<(usize, Seq<char>, Location)> {
    Seq::new(fs.len(), |i: int| (fs[i].0, (fs[i].1).0@, (fs[i].1).1))
}

/// The key text of a key value.
pub open spec fn key_text(v: ValueModel) -> Seq<char> {
    match v {
        ValueModel::String(s, _) => s,
        _ => Seq::empty(),
    }
}

/// Inserts the key/value pairs `kv[0], kv[1]`, `kv[2], kv[3]`, ... in order.
pub open spec fn fold_pairs(es: Seq<(Seq<char>, ValueModel)>, kv: Seq<ValueModel>) -> Seq<
    (Seq<char>, ValueModel),
>
    decreases kv.len(),
{
    if kv.len() < 2 {
        es
    } else {
        fold_pairs(insert_model(es, key_text(kv[0]), kv[1]), kv.subrange(2, kv.len() as int))
    }
}

/// The location of an event at a line and a column.
pub open spec fn event_location(line: usize, col: usize) -> Location {
    Location { row: (line as u32) as usize, column: col }
}

/// The reader after an event.
pub open spec fn step(m: ReaderModel, ev: DataEvent, loc: Location) -> ReaderModel {
    match ev {
        DataEvent::DocumentEnd => ReaderModel {
            stack: Seq::empty(),
            documents: m.documents.push(m.stack.last()),
            containers: Seq::empty(),
            funcs: m.funcs,
        },
        DataEvent::MappingStart(_, _) => ReaderModel {
            stack: m.stack.push(ValueModel::Mapping(Seq::empty(), loc)),
            containers: m.containers.push(m.stack.len() as usize),
            ..m
        },
        DataEvent::MappingEnd => {
            let i = m.containers.last() as int;
            match m.stack[i] {
                ValueModel::Mapping(es, l) => ReaderModel {
                    stack: m.stack.subrange(0, i).push(
                        ValueModel::Mapping(
                            fold_pairs(es, m.stack.subrange(i + 1, m.stack.len() as int)),
                            l,
                        ),
                    ),
                    containers: m.containers.drop_last(),
                    ..m
                },
                _ => m,
            }
        },
        DataEvent::SequenceStart(_, tag) => {
            let funcs_tag = match tag_view(tag) {
                Some((h, t)) => h == "!"@ && sequence_value_tag(t),
                None => false,
            };
            let suffix = tag_view(tag).unwrap().1;
            let stack1 = if funcs_tag {
                m.stack.push(
                    ValueModel::Mapping(seq![(long_form(suffix)->0, ValueModel::Null(loc))], loc),
                )
            } else {
                m.stack
            };
            let funcs1 = if funcs_tag {
                m.funcs.push((m.stack.len() as usize, long_form(suffix)->0, loc))
            } else {
                m.funcs
            };
            ReaderModel {
                stack: stack1.push(ValueModel::List(Seq::empty(), loc)),
                containers: m.containers.push(stack1.len() as usize),
                funcs: funcs1,
                ..m
            }
        },
        DataEvent::SequenceEnd => {
            let i = m.containers.last() as int;
            match m.stack[i] {
                ValueModel::List(vs, l) => {
                    let list = ValueModel::List(vs + m.stack.subrange(i + 1, m.stack.len() as int), l);
                    let stack1 = m.stack.subrange(0, i).push(list);
                    let containers = m.containers.drop_last();
                    if m.funcs.len() > 0 && m.funcs.last().0 == i - 1 {
                        let f = m.funcs.last();
                        let stack2 = match stack1[i - 1] {
                            ValueModel::Mapping(es, ml) => stack1.subrange(0, i - 1).push(
                                ValueModel::Mapping(insert_model(es, f.1, list), ml),
                            ),
                            _ => stack1.subrange(0, i),
                        };
                        ReaderModel {
                            stack: stack2,
                            containers,
                            funcs: m.funcs.drop_last(),
                            ..m
                        }
                    } else {
                        ReaderModel { stack: stack1, containers, ..m }
                    }
                },
                _ => m,
            }
        },
        DataEvent::Scalar(val, style, _, tag) => ReaderModel {
            stack: m.stack.push(scalar_model(val@, style, tag_view(tag), loc)),
            ..m
        },
        _ => m,
    }
}

impl StructureReader {
    pub closed spec fn model(self) -> ReaderModel {
        ReaderModel {
            stack: models(self.stack@),
            documents: models(self.documents@),
            containers: self.last_container_index@,
            funcs: funcs_model(self.func_support_index@),
        }
    }

    /// Every value held has each key of its mappings once.
    pub closed spec fn wf(self) -> bool {
        &&& forall|i: int| 0 <= i < self.stack@.len() ==> (#[trigger] self.stack@[i]).wf()
        &&& forall|i: int| 0 <= i < self.documents@.len() ==> (#[trigger] self.documents@[i]).wf()
    }

    /// Whether the reader can take the event: the events of a well-formed
    /// YAML stream, whose mapping keys are scalars.
    pub closed spec fn accepts(self, ev: DataEvent) -> bool {
        let stack = self.stack@;
        let containers = self.last_container_index@;
        match ev {
            DataEvent::Nothing => false,
            DataEvent::Alias(_) => false,
            DataEvent::SequenceStart(anchor, _) => anchor == 0,
            DataEvent::DocumentEnd => stack.len() > 0,
            DataEvent::MappingEnd => {
                &&& containers.len() > 0
                &&& containers.last() < stack.len()
                &&& stack[containers.last() as int] is Mapping
                &&& (stack.len() - containers.last() - 1) % 2 == 0
                &&& forall|k: int|
                    containers.last() < k < stack.len() && (k - containers.last() - 1) % 2 == 0
                        ==> #[trigger] stack[k] is String
            },
            DataEvent::SequenceEnd => {
                let i = containers.last() as int;
                let funcs = self.func_support_index@;
                &&& containers.len() > 0
                &&& i < stack.len()
                &&& stack[i] is List
                &&& funcs.len() > 0 ==> i >= 1
                &&& (funcs.len() > 0 && funcs.last().0 == i - 1) ==> (stack[i - 1] is Mapping
                    || stack[i - 1] is BadValue)
            },
            _ => true,
        }
    }

    pub fn new() -> (r: StructureReader)
        ensures
            r.model() == (ReaderModel {
                stack: Seq::empty(),
                documents: Seq::empty(),
                containers: Seq::empty(),
                funcs: Seq::empty(),
            }),
            r.wf(),
    {
        let r = StructureReader {
            stack: Vec::new(),
            documents: Vec::new(),
            last_container_index: Vec::new(),
            func_support_index: Vec::new(),
        };
        proof {
            lemma_models(r.stack@);
            lemma_models(r.documents@);
            assert(models(r.stack@) =~= Seq::empty());
            assert(models(r.documents@) =~= Seq::empty());
            assert(funcs_model(r.func_support_index@) =~= Seq::empty());
        }
        r
    }
}

proof fn lemma_models_push(s: Seq<Value>, v: Value)
    ensures
        models(s.push(v)) == models(s).push(v.model()),
{
    lemma_models(s);
    lemma_models(s.push(v));
    assert(models(s.push(v)) =~= models(s).push(v.model()));
}

proof fn lemma_models_subrange(s: Seq<Value>, a: int, b: int)
    requires
        0 <= a <= b <= s.len(),
    ensures
        models(s.subrange(a, b)) == models(s).subrange(a, b),
{
    lemma_models(s);
    lemma_models(s.subrange(a, b));
    assert(models(s.subrange(a, b)) =~= models(s).subrange(a, b));
}

proof fn lemma_funcs_model_push(fs: Seq<(usize, (String, Location))>, f: (usize, (String, Location)))
    ensures
        funcs_model(fs.push(f)) == funcs_model(fs).push((f.0, (f.1).0@, (f.1).1)),
{
    assert(funcs_model(fs.push(f)) =~= funcs_model(fs).push((f.0, (f.1).0@, (f.1).1)));
}

proof fn lemma_funcs_model_drop_last(fs: Seq<(usize, (String, Location))>)
    requires
        fs.len() > 0,
    ensures
        funcs_model(fs.drop_last()) == funcs_model(fs).drop_last(),
{
    assert(funcs_model(fs.drop_last()) =~= funcs_model(fs).drop_last());
}

impl StructureReader {
    fn on_document_end(&mut self)
        requires
            old(self).wf(),
            old(self).stack@.len() > 0,
        ensures
            final(self).wf(),
            final(self).model() == step(old(self).model(), DataEvent::DocumentEnd, Location { row: 0, column: 0 }),
    {
        let ghost st0 = self.stack@;
        let ghost d0 = self.documents@;
        let top = self.stack.pop().unwrap();
        proof {
            assert(top == st0.last());
            lemma_models(st0);
        }
        self.documents.push(top);
        self.stack = Vec::new();
        self.last_container_index = Vec::new();
        proof {
            lemma_models_push(d0, top);
            lemma_models(self.stack@);
            assert(models(self.stack@) =~= Seq::empty());
            assert(self.last_container_index@ =~= Seq::empty());
            assert(models(st0).last() == st0.last().model());
            assert forall|i: int| 0 <= i < self.documents@.len() implies (#[trigger] self.documents@[i]).wf() by {
                if i < d0.len() {
                    assert(self.documents@[i] == d0[i]);
                }
            }
        }
    }

    fn on_mapping_start(&mut self, loc: Location)
        requires
            old(self).wf(),
        ensures
            final(self).wf(),
            final(self).model() == step(old(self).model(), DataEvent::MappingStart(0, None), loc),
    {
        let ghost st0 = self.stack@;
        let v = Value::Mapping(Vec::new(), loc);
        proof {
            lemma_entry_models(Seq::<(String, Value)>::empty());
            assert(v.model() == ValueModel::Mapping(Seq::empty(), loc));
            assert(v.wf());
        }
        self.stack.push(v);
        let n = self.stack.len() - 1;
        self.last_container_index.push(n);
        proof {
            lemma_models_push(st0, v);
            lemma_models(st0);
            assert forall|i: int| 0 <= i < self.stack@.len() implies (#[trigger] self.stack@[i]).wf() by {
                if i < st0.len() {
                    assert(self.stack@[i] == st0[i]);
                }
            }
        }
    }

    fn on_scalar(&mut self, v: Value)
        requires
            old(self).wf(),
            v.wf(),
        ensures
            final(self).wf(),
            final(self).model().stack == old(self).model().stack.push(v.model()),
            final(self).model().documents == old(self).model().documents,
            final(self).model().containers == old(self).model().containers,
            final(self).model().funcs == old(self).model().funcs,
    {
        let ghost st0 = self.stack@;
        self.stack.push(v);
        proof {
            lemma_models_push(st0, v);
            assert forall|i: int| 0 <= i < self.stack@.len() implies (#[trigger] self.stack@[i]).wf() by {
                if i < st0.len() {
                    assert(self.stack@[i] == st0[i]);
                }
            }
        }
    }
}

impl StructureReader {
    /// Moves the values after position `i` of the stack into a list, last
    /// first.
    fn take_after(&mut self, i: usize) -> (rest: Vec<Value>)
        requires
            i < old(self).stack@.len(),
        ensures
            final(self).stack@ == old(self).stack@.subrange(0, i + 1),
            rest@ == old(self).stack@.subrange(i + 1, old(self).stack@.len() as int).reverse(),
            final(self).documents@ == old(self).documents@,
            final(self).last_container_index@ == old(self).last_container_index@,
            final(self).func_support_index@ == old(self).func_support_index@,
    {
        let ghost st0 = self.stack@;
        let mut rest: Vec<Value> = Vec::new();
        proof {
            assert(st0.subrange(0, st0.len() as int) =~= st0);
            assert(st0.subrange(st0.len() as int, st0.len() as int).reverse() =~= Seq::<Value>::empty());
        }
        while self.stack.len() > i + 1
            invariant
                i < self.stack@.len() <= st0.len(),
                self.stack@ == st0.subrange(0, self.stack@.len() as int),
                rest@ == st0.subrange(self.stack@.len() as int, st0.len() as int).reverse(),
                self.documents@ == old(self).documents@,
                self.last_container_index@ == old(self).last_container_index@,
                self.func_support_index@ == old(self).func_support_index@,
            decreases self.stack@.len(),
        {
            let ghost n = self.stack@.len();
            let v = self.stack.pop().unwrap();
            rest.push(v);
            proof {
                assert(v == st0[n - 1]);
                assert(self.stack@ =~= st0.subrange(0, n - 1));
                assert(rest@ =~= st0.subrange(n - 1, st0.len() as int).reverse());
            }
        }
        rest
    }

    fn on_mapping_end(&mut self)
        requires
            old(self).wf(),
            old(self).accepts(DataEvent::MappingEnd),
        ensures
            final(self).wf(),
            final(self).model() == step(old(self).model(), DataEvent::MappingEnd, Location { row: 0, column: 0 }),
    {
        let ghost st0 = self.stack@;
        let ghost m0 = self.model();
        let map_index = self.last_container_index.pop().unwrap();
        let ghost i = map_index as int;
        let ghost kv = st0.subrange(i + 1, st0.len() as int);
        let mut rest = self.take_after(map_index);
        let map_value = self.stack.pop().unwrap();
        proof {
            assert(map_value == st0[i]);
            assert(self.stack@ =~= st0.subrange(0, i));
        }
        let (mut entries, l) = match map_value {
            Value::Mapping(es, l) => (es, l),
            _ => {
                proof {
                    assert(false);
                }
                (Vec::new(), Location { row: 0, column: 0 })
            },
        };
        let ghost es0 = entries@;
        proof {
            assert(st0[i].wf());
            lemma_models(st0);
            lemma_models_subrange(st0, i + 1, st0.len() as int);
            assert(kv.subrange(0, kv.len() as int) =~= kv);
            assert(kv.subrange(kv.len() - rest@.len(), kv.len() as int) =~= kv);
        }
        while rest.len() >= 2
            invariant
                rest@.len() <= kv.len(),
                (kv.len() - rest@.len()) % 2 == 0,
                kv.len() % 2 == 0,
                rest@ == kv.subrange(kv.len() - rest@.len(), kv.len() as int).reverse(),
                forall|j: int| 0 <= j < kv.len() && j % 2 == 0 ==> (#[trigger] kv[j]) is String,
                forall|j: int| 0 <= j < kv.len() ==> (#[trigger] kv[j]).wf(),
                keys_unique(entries@),
                forall|j: int| 0 <= j < entries@.len() ==> (#[trigger] entries@[j]).1.wf(),
                fold_pairs(entry_models(es0), models(kv)) == fold_pairs(
                    entry_models(entries@),
                    models(kv.subrange(kv.len() - rest@.len(), kv.len() as int)),
                ),
            decreases rest@.len(),
        {
            let ghost p = kv.len() - rest@.len();
            let ghost sub = kv.subrange(p, kv.len() as int);
            let key = rest.pop().unwrap();
            let value = rest.pop().unwrap();
            proof {
                assert(key == kv[p]);
                assert(value == kv[p + 1]);
                lemma_models(sub);
                lemma_models_subrange(sub, 2, sub.len() as int);
                assert(sub.subrange(2, sub.len() as int) =~= kv.subrange(p + 2, kv.len() as int));
                assert(rest@ =~= kv.subrange(p + 2, kv.len() as int).reverse());
            }
            match key {
                Value::String(k, _) => {
                    proof {
                        crate::value::lemma_insert_model(entries@, k, value);
                    }
                    let ghost before = entries@;
                    map_insert(&mut entries, k, value);
                    proof {
                        assert forall|j: int| 0 <= j < entries@.len() implies (#[trigger] entries@[j]).1.wf() by {
                            if j < before.len() && entries@[j] == before[j] {
                            } else {
                                if j < before.len() {
                                    assert(entries@ == insert_entry(before, k, value));
                                }
                            }
                        }
                    }
                },
                _ => {
                    proof {
                        assert(false);
                    }
                },
            }
        }
        proof {
            assert(rest@.len() == 0);
            assert(kv.subrange(kv.len() as int, kv.len() as int) =~= Seq::<Value>::empty());
            lemma_models(Seq::<Value>::empty());
        }
        let ghost st1 = self.stack@;
        let v = Value::Mapping(entries, l);
        self.stack.push(v);
        proof {
            lemma_models_push(st1, v);
            lemma_models_subrange(st0, 0, i);
            assert forall|j: int| 0 <= j < self.stack@.len() implies (#[trigger] self.stack@[j]).wf() by {
                if j < st1.len() {
                    assert(self.stack@[j] == st0[j]);
                }
            }
        }
    }
}

impl StructureReader {
    fn on_sequence_start(&mut self, tag: Option<(String, String)>, loc: Location)
        requires
            old(self).wf(),
        ensures
            final(self).wf(),
            final(self).model() == step(old(self).model(), DataEvent::SequenceStart(0, tag), loc),
    {
        proof {
            reveal_strlit("!");
        }
        let ghost st0 = self.stack@;
        let ghost f0 = self.func_support_index@;
        let ghost m0 = self.model();
        proof {
            lemma_models(st0);
        }
        if let Some((handle, suffix)) = &tag {
            if str_equal(handle.as_str(), "!") {
                match Self::handle_sequence_value_func_ref(loc, suffix.as_str()) {
                    Some(value) => {
                        self.stack.push(value);
                        let fn_ref = Self::short_form_to_long(suffix.as_str());
                        let at = self.stack.len() - 1;
                        let entry = (at, (to_owned_string(fn_ref), loc));
                        let ghost e = entry;
                        self.func_support_index.push(entry);
                        proof {
                            lemma_models_push(st0, value);
                            lemma_funcs_model_push(f0, e);
                        }
                    },
                    None => {},
                }
            }
        }
        let ghost st1 = self.stack@;
        let list = Value::List(Vec::new(), loc);
        proof {
            lemma_models(Seq::<Value>::empty());
            assert(list.model() == ValueModel::List(Seq::empty(), loc));
            assert(list.wf());
        }
        self.stack.push(list);
        let n = self.stack.len() - 1;
        self.last_container_index.push(n);
        proof {
            lemma_models_push(st1, list);
            assert forall|j: int| 0 <= j < self.stack@.len() implies (#[trigger] self.stack@[j]).wf() by {
                if j < st0.len() {
                    assert(self.stack@[j] == st0[j]);
                }
            }
        }
    }
}

proof fn lemma_models_concat(a: Seq<Value>, b: Seq<Value>)
    ensures
        models(a + b) == models(a) + models(b),
{
    lemma_models(a);
    lemma_models(b);
    lemma_models(a + b);
    assert(models(a + b) =~= models(a) + models(b));
}

impl StructureReader {
    fn on_sequence_end(&mut self)
        requires
            old(self).wf(),
            old(self).accepts(DataEvent::SequenceEnd),
        ensures
            final(self).wf(),
            final(self).model() == step(old(self).model(), DataEvent::SequenceEnd, Location { row: 0, column: 0 }),
    {
        let ghost st0 = self.stack@;
        let ghost f0 = self.func_support_index@;
        let ghost m0 = self.model();
        let array_idx = self.last_container_index.pop().unwrap();
        let ghost i = array_idx as int;
        let ghost kv = st0.subrange(i + 1, st0.len() as int);
        let mut rest = self.take_after(array_idx);
        let list_value = self.stack.pop().unwrap();
        proof {
            assert(list_value == st0[i]);
            assert(self.stack@ =~= st0.subrange(0, i));
            lemma_models(st0);
            assert(st0[i].wf());
        }
        let (mut items, l) = match list_value {
            Value::List(v, l) => (v, l),
            _ => {
                proof {
                    assert(false);
                }
                (Vec::new(), Location { row: 0, column: 0 })
            },
        };
        let ghost items0 = items@;
        proof {
            assert(kv.subrange(0, 0) =~= Seq::<Value>::empty());
            assert(items0 + kv.subrange(0, 0) =~= items0);
            assert(kv.subrange(kv.len() - rest@.len(), kv.len() as int) =~= kv);
        }
        while rest.len() > 0
            invariant
                rest@.len() <= kv.len(),
                rest@ == kv.subrange(kv.len() - rest@.len(), kv.len() as int).reverse(),
                items@ == items0 + kv.subrange(0, kv.len() - rest@.len()),
            decreases rest@.len(),
        {
            let ghost p = kv.len() - rest@.len();
            let v = rest.pop().unwrap();
            proof {
                assert(v == kv[p]);
                assert(rest@ =~= kv.subrange(p + 1, kv.len() as int).reverse());
            }
            items.push(v);
            proof {
                assert(items@ =~= items0 + kv.subrange(0, p + 1));
            }
        }
        proof {
            assert(kv.subrange(0, kv.len() as int) =~= kv);
            lemma_models_concat(items0, kv);
            lemma_models_subrange(st0, i + 1, st0.len() as int);
            assert forall|j: int| 0 <= j < items@.len() implies (#[trigger] items@[j]).wf() by {
                if j < items0.len() {
                    assert(items@[j] == items0[j]);
                } else {
                    assert(items@[j] == st0[i + 1 + (j - items0.len())]);
                }
            }
        }
        let list = Value::List(items, l);
        let nf = self.func_support_index.len();
        let is_func = nf > 0 && self.func_support_index[nf - 1].0 == array_idx - 1;
        if is_func {
            let f = self.func_support_index.pop().unwrap();
            proof {
                lemma_funcs_model_drop_last(f0);
                assert(f == f0.last());
            }
            let (_, (fn_ref, _)) = f;
            let ghost st1 = self.stack@;
            let map = self.stack.pop().unwrap();
            proof {
                assert(map == st0[i - 1]);
                assert(self.stack@ =~= st0.subrange(0, i - 1));
                assert(map.wf());
            }
            match map {
                Value::Mapping(mut es, ml) => {
                    proof {
                        crate::value::lemma_insert_model(es@, fn_ref, list);
                    }
                    let ghost before = es@;
                    map_insert(&mut es, fn_ref, list);
                    proof {
                        assert forall|j: int| 0 <= j < es@.len() implies (#[trigger] es@[j]).1.wf() by {
                            if j < before.len() && es@[j] == before[j] {
                            } else {
                                if j < before.len() {
                                    assert(es@ == insert_entry(before, fn_ref, list));
                                }
                            }
                        }
                    }
                    let ghost st2 = self.stack@;
                    let m = Value::Mapping(es, ml);
                    self.stack.push(m);
                    proof {
                        lemma_models_push(st2, m);
                        lemma_models_subrange(st0, 0, i - 1);
                    }
                },
                Value::BadValue(t, bl) => {
                    let ghost st2 = self.stack@;
                    let m = Value::BadValue(t, bl);
                    self.stack.push(m);
                    proof {
                        lemma_models_push(st2, m);
                        lemma_models_subrange(st0, 0, i - 1);
                        lemma_models_subrange(st0, 0, i);
                        assert(st0.subrange(0, i - 1).push(m) =~= st0.subrange(0, i));
                    }
                },
                _ => {
                    proof {
                        assert(false);
                    }
                },
            }
        } else {
            let ghost st2 = self.stack@;
            self.stack.push(list);
            proof {
                lemma_models_push(st2, list);
                lemma_models_subrange(st0, 0, i);
            }
        }
        proof {
            assert forall|j: int| 0 <= j < self.stack@.len() implies (#[trigger] self.stack@[j]).wf() by {
                if j < i - 1 {
                    assert(self.stack@[j] == st0[j]);
                } else if j == i - 1 && !is_func {
                    assert(self.stack@[j] == st0[j]);
                }
            }
            let want = step(m0, DataEvent::SequenceEnd, Location { row: 0, column: 0 });
            assert(self.model().documents == want.documents);
            assert(self.model().funcs == want.funcs);
            assert(self.model().containers == want.containers);
            assert(self.model().stack == want.stack);
        }
    }
}

impl StructureReader {
    /// Whether the reader can take the event.
    pub fn can_take(&self, ev: &DataEvent) -> (r: bool)
        ensures
            r == self.accepts(*ev),
    {
        match ev {
            DataEvent::Nothing => false,
            DataEvent::Alias(_) => false,
            DataEvent::SequenceStart(anchor, _) => *anchor == 0,
            DataEvent::DocumentEnd => self.stack.len() > 0,
            DataEvent::MappingEnd => {
                let nc = self.last_container_index.len();
                if nc == 0 {
                    return false;
                }
                let i = self.last_container_index[nc - 1];
                let n = self.stack.len();
                if i >= n {
                    return false;
                }
                match &self.stack[i] {
                    Value::Mapping(..) => {},
                    _ => return false,
                }
                if (n - i - 1) % 2 != 0 {
                    return false;
                }
                let mut k = i + 1;
                while k < n
                    invariant
                        i < n,
                        n == self.stack@.len(),
                        nc == self.last_container_index@.len(),
                        nc > 0,
                        *ev is MappingEnd,
                        i == self.last_container_index@[nc - 1],
                        self.stack@[i as int] is Mapping,
                        (n - i - 1) % 2 == 0,
                        i + 1 <= k <= n,
                        (k - i - 1) % 2 == 0,
                        forall|j: int| i < j < k && (j - i - 1) % 2 == 0 ==> (#[trigger] self.stack@[j]) is String,
                    decreases n + 1 - k,
                {
                    match &self.stack[k] {
                        Value::String(..) => {},
                        _ => return false,
                    }
                    k = k + 2;
                }
                proof {
                    assert forall|j: int| i < j < n && (j - i - 1) % 2 == 0 implies (#[trigger] self.stack@[j]) is String by {
                        assert(j < k);
                    }
                }
                true
            },
            DataEvent::SequenceEnd => {
                let nc = self.last_container_index.len();
                if nc == 0 {
                    return false;
                }
                let i = self.last_container_index[nc - 1];
                let n = self.stack.len();
                if i >= n {
                    return false;
                }
                match &self.stack[i] {
                    Value::List(..) => {},
                    _ => return false,
                }
                let nf = self.func_support_index.len();
                if nf == 0 {
                    return true;
                }
                if i < 1 {
                    return false;
                }
                if self.func_support_index[nf - 1].0 == i - 1 {
                    match &self.stack[i - 1] {
                        Value::Mapping(..) => true,
                        Value::BadValue(..) => true,
                        _ => false,
                    }
                } else {
                    true
                }
            },
            _ => true,
        }
    }

    /// Builds values from one event of the YAML parser, reported at a line
    /// and a column.
    pub fn on_event(&mut self, ev: DataEvent, line: usize, col: usize)
        requires
            old(self).wf(),
            old(self).accepts(ev),
        ensures
            final(self).wf(),
            final(self).model() == step(old(self).model(), ev, event_location(line, col)),
    {
        let loc = Location::new(line as u32, col);
        let ghost ev0 = ev;
        match ev {
            DataEvent::StreamStart => {},
            DataEvent::StreamEnd => {},
            DataEvent::DocumentStart => {},
            DataEvent::DocumentEnd => self.on_document_end(),
            DataEvent::MappingStart(_, _) => self.on_mapping_start(loc),
            DataEvent::MappingEnd => self.on_mapping_end(),
            DataEvent::SequenceStart(_, tag) => self.on_sequence_start(tag, loc),
            DataEvent::SequenceEnd => self.on_sequence_end(),
            DataEvent::Scalar(val, style, _, token) => {
                let v = Self::scalar_value(val, style, &token, loc);
                self.on_scalar(v);
            },
            DataEvent::Nothing => {},
            DataEvent::Alias(_) => {},
        }
    }

    /// Takes the last document read, if any.
    pub fn pop_document(&mut self) -> (r: Option<Value>)
        requires
            old(self).wf(),
        ensures
            final(self).wf(),
            old(self).model().documents.len() == 0 ==> r is None && final(self).model() == old(self).model(),
            old(self).model().documents.len() > 0 ==> (r matches Some(v) && v.model() == old(self).model().documents.last()
                && v.wf() && final(self).model() == (ReaderModel {
                documents: old(self).model().documents.drop_last(),
                ..old(self).model()
            })),
    {
        let ghost d0 = self.documents@;
        proof {
            lemma_models(d0);
        }
        let r = self.documents.pop();
        proof {
            if d0.len() > 0 {
                lemma_models_subrange(d0, 0, d0.len() - 1);
                assert(self.documents@ =~= d0.subrange(0, d0.len() - 1));
                assert(models(d0).drop_last() =~= models(d0).subrange(0, d0.len() - 1));
                assert(d0[d0.len() - 1].wf());
            }
        }
        r
    }
}

} // verus!
