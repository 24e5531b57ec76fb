use vstd::prelude::*;

use super::fields::Fields;
use super::number::Number;

verus! {

/// A calendar date (year, month 1..=12, day 1..=31).
#[derive(Clone, Copy, Debug, PartialEq, Eq, Structural)]
pub struct Date {
    pub year: i32,
    pub month: u32,
    pub day: u32,
}

/// A date with a time of day (hour, minute, second, nanosecond).
#[derive(Clone, Copy, Debug, PartialEq, Eq, Structural)]
pub struct Timestamp {
    pub date: Date,
    pub hour: u32,
    pub minute: u32,
    pub second: u32,
    pub nanosecond: u32,
}

/// An instant given as its UTC timestamp and the offset, in seconds east of
/// UTC, it is shown in; two instants are equal when their UTC timestamps are.
#[derive(Clone, Copy, Debug)]
pub struct DateTime {
    pub utc: Timestamp,
    pub offset_seconds: i32,
}

impl PartialEq for DateTime {
    fn eq(&self, other: &Self) -> (r: bool) {
        self.utc == other.utc
    }
}

impl vstd::std_specs::cmp::PartialEqSpecImpl for DateTime {
    open spec fn obeys_eq_spec() -> bool {
        true
    }

    open spec fn eq_spec(&self, other: &Self) -> bool {
        self.utc == other.utc
    }
}

/// A runtime value.
#[derive(Debug, PartialEq)]
pub enum Value {
    Number(Number),
    Text(String),
    Bool(bool),
    Date(Date),
    Timestamp(Timestamp),
    DateTime(DateTime),
    Record(Fields),
    Null,
}

impl Clone for Value {
    fn clone(&self) -> (r: Self)
        ensures
            r == *self,
    {
        match self {
            Value::Number(n) => Value::Number(*n),
            Value::Text(s) => Value::Text(s.clone()),
            Value::Bool(b) => Value::Bool(*b),
            Value::Date(d) => Value::Date(*d),
            Value::Timestamp(t) => Value::Timestamp(*t),
            Value::DateTime(t) => Value::DateTime(*t),
            Value::Record(f) => Value::Record(f.clone()),
            Value::Null => Value::Null,
        }
    }
}

/// The declared type of a variable, parameter or return value.
#[derive(Clone, Copy, Debug, PartialEq, Eq, Hash, Structural)]
pub enum DataType {
    Number,
    Text,
    Bool,
    Date,
    Timestamp,
    DateTime,
    Record,
    Null,
}

/// The type a value has.
pub open spec fn type_of(value: Value) -> DataType {
    match value {
        Value::Number(_) => DataType::Number,
        Value::Text(_) => DataType::Text,
        Value::Bool(_) => DataType::Bool,
        Value::Date(_) => DataType::Date,
        Value::Timestamp(_) => DataType::Timestamp,
        Value::DateTime(_) => DataType::DateTime,
        Value::Record(_) => DataType::Record,
        Value::Null => DataType::Null,
    }
}

/// The upper-case name of a type.
pub open spec fn type_name_spec(t: DataType) -> Seq<char> {
    match t {
        DataType::Number => seq!['N', 'U', 'M', 'B', 'E', 'R'],
        DataType::Text => seq!['T', 'E', 'X', 'T'],
        DataType::Bool => seq!['B', 'O', 'O', 'L', 'E', 'A', 'N'],
        DataType::Date => seq!['D', 'A', 'T', 'E'],
        DataType::Timestamp => seq!['T', 'I', 'M', 'E', 'S', 'T', 'A', 'M', 'P'],
        DataType::DateTime => seq!['D', 'A', 'T', 'E', 'T', 'I', 'M', 'E'],
        DataType::Record => seq!['R', 'E', 'C', 'O', 'R', 'D'],
        DataType::Null => seq!['N', 'U', 'L', 'L'],
    }
}

/// ASCII upper-casing of one character.
pub open spec fn upper_char(c: char) -> char {
    if 'a' <= c <= 'z' {
        ((c as u32) - 32) as char
    } else {
        c
    }
}

/// ASCII upper-casing of a string.
pub open spec fn upper(s: Seq<char>) -> Seq<char> {
    s.map_values(|c: char| upper_char(c))
}

/// The type that a (case-insensitive) type name denotes; `BOOL` and
/// `BOOLEAN` both denote the boolean type.
pub open spec fn type_from_name_spec(name: Seq<char>) -> Option<DataType> {
    let u = upper(name);
    if u == type_name_spec(DataType::Number) {
        Some(DataType::Number)
    } else if u == type_name_spec(DataType::Text) {
        Some(DataType::Text)
    } else if u == seq!['B', 'O', 'O', 'L'] || u == type_name_spec(DataType::Bool) {
        Some(DataType::Bool)
    } else if u == type_name_spec(DataType::Date) {
        Some(DataType::Date)
    } else if u == type_name_spec(DataType::Timestamp) {
        Some(DataType::Timestamp)
    } else if u == type_name_spec(DataType::DateTime) {
        Some(DataType::DateTime)
    } else if u == type_name_spec(DataType::Record) {
        Some(DataType::Record)
    } else if u == type_name_spec(DataType::Null) {
        Some(DataType::Null)
    } else {
        None
    }
}

/// A value of type `t` may hold `value`: NULL fits every type.
pub open spec fn accepts(t: DataType, value: Value) -> bool {
    value is Null || type_of(value) == t
}

/// ASCII upper-casing of one character.
pub fn to_upper_char(c: char) -> (r: char)
    ensures
        r == upper_char(c),
{
    if 'a' <= c && c <= 'z' {
        let code: u32 = (c as u32) - 32;
        proof {
            assert(0x41 <= code <= 0x5a);
        }
        char_from_ascii(code)
    } else {
        c
    }
}

/// The character with an ASCII code.
fn char_from_ascii(code: u32) -> (r: char)
    requires
        code < 128,
    ensures
        r == code as char,
{
    let b: u8 = code as u8;
    b as char
}

/// The characters of a string slice (`str::chars` collected).
#[verifier::external_body]
pub fn chars_of(s: &str) -> (r: Vec<char>)
    ensures
        r@ == s@,
{
    s.chars().collect()
}

/// Appends a character to a string (`String::push`).
pub assume_specification[ String::push ](s: &mut String, ch: char)
    ensures
        final(s)@ == old(s)@.push(ch),
;

/// String slice equality (`str == str`): same characters.
pub assume_specification[ <str as PartialEq>::eq ](a: &str, b: &str) -> (r: bool)
    ensures
        r == (a@ == b@),
;

/// Two string slices hold the same characters.
pub fn str_equal(a: &str, b: &str) -> (r: bool)
    ensures
        r == (a@ == b@),
{
    <str as PartialEq>::eq(a, b)
}

/// A string holding the given characters.
pub fn string_from_chars(chars: &[char]) -> (r: String)
    ensures
        r@ == chars@,
{
    let mut s = String::new();
    let mut i: usize = 0;
    while i < chars.len()
        invariant
            i <= chars@.len(),
            s@ == chars@.subrange(0, i as int),
        decreases chars@.len() - i,
    {
        s.push(chars[i]);
        i += 1;
        assert(s@ =~= chars@.subrange(0, i as int));
    }
    assert(chars@.subrange(0, chars@.len() as int) =~= chars@);
    s
}

/// `a` equals `b` after ASCII upper-casing `a`.
pub fn upper_equals(a: &[char], b: &str) -> (r: bool)
    ensures
        r == (upper(a@) == b@),
{
    let bc = chars_of(b);
    if a.len() != bc.len() {
        assert(upper(a@).len() == a@.len());
        return false;
    }
    let mut i: usize = 0;
    while i < a.len()
        invariant
            i <= a@.len(),
            a@.len() == bc@.len(),
            bc@ == b@,
            forall|k: int| 0 <= k < i ==> upper_char(a@[k]) == bc@[k],
        decreases a@.len() - i,
    {
        let c = to_upper_char(a[i]);
        if c != bc[i] {
            assert(upper(a@)[i as int] != b@[i as int]);
            return false;
        }
        i += 1;
    }
    assert(upper(a@) =~= b@);
    true
}

impl DataType {
    /// The type of `value`.
    pub fn from_value(value: &Value) -> (r: DataType)
        ensures
            r == type_of(*value),
    {
        match value {
            Value::Number(_) => DataType::Number,
            Value::Text(_) => DataType::Text,
            Value::Bool(_) => DataType::Bool,
            Value::Date(_) => DataType::Date,
            Value::Timestamp(_) => DataType::Timestamp,
            Value::DateTime(_) => DataType::DateTime,
            Value::Record(_) => DataType::Record,
            Value::Null => DataType::Null,
        }
    }

    /// A variable of this type may hold `value`.
    pub fn accept(&self, value: &Value) -> (r: bool)
        ensures
            r == accepts(*self, *value),
    {
        match value {
            Value::Null => true,
            _ => DataType::from_value(value) == *self,
        }
    }

    /// The upper-case name of the type.
    pub fn name(&self) -> (r: &'static str)
        ensures
            r@ == type_name_spec(*self),
    {
        let r = match self {
            DataType::Number => "NUMBER",
            DataType::Text => "TEXT",
            DataType::Bool => "BOOLEAN",
            DataType::Date => "DATE",
            DataType::Timestamp => "TIMESTAMP",
            DataType::DateTime => "DATETIME",
            DataType::Record => "RECORD",
            DataType::Null => "NULL",
        };
        proof {
            reveal_strlit("NUMBER");
            reveal_strlit("TEXT");
            reveal_strlit("BOOLEAN");
            reveal_strlit("DATE");
            reveal_strlit("TIMESTAMP");
            reveal_strlit("DATETIME");
            reveal_strlit("RECORD");
            reveal_strlit("NULL");
            assert("NUMBER"@ =~= type_name_spec(DataType::Number));
            assert("TEXT"@ =~= type_name_spec(DataType::Text));
            assert("BOOLEAN"@ =~= type_name_spec(DataType::Bool));
            assert("DATE"@ =~= type_name_spec(DataType::Date));
            assert("TIMESTAMP"@ =~= type_name_spec(DataType::Timestamp));
            assert("DATETIME"@ =~= type_name_spec(DataType::DateTime));
            assert("RECORD"@ =~= type_name_spec(DataType::Record));
            assert("NULL"@ =~= type_name_spec(DataType::Null));
        }
        r
    }

    /// The type a name denotes, ignoring ASCII case.
    pub fn from_name(name: &str) -> (r: Option<DataType>)
        ensures
            r == type_from_name_spec(name@),
    {
        let c = chars_of(name);
        proof {
            reveal_strlit("NUMBER");
            reveal_strlit("TEXT");
            reveal_strlit("BOOL");
            reveal_strlit("BOOLEAN");
            reveal_strlit("DATE");
            reveal_strlit("TIMESTAMP");
            reveal_strlit("DATETIME");
            reveal_strlit("RECORD");
            reveal_strlit("NULL");
            assert("NUMBER"@ =~= type_name_spec(DataType::Number));
            assert("TEXT"@ =~= type_name_spec(DataType::Text));
            assert("BOOL"@ =~= seq!['B', 'O', 'O', 'L']);
            assert("BOOLEAN"@ =~= type_name_spec(DataType::Bool));
            assert("DATE"@ =~= type_name_spec(DataType::Date));
            assert("TIMESTAMP"@ =~= type_name_spec(DataType::Timestamp));
            assert("DATETIME"@ =~= type_name_spec(DataType::DateTime));
            assert("RECORD"@ =~= type_name_spec(DataType::Record));
            assert("NULL"@ =~= type_name_spec(DataType::Null));
        }
        if upper_equals(&c, "NUMBER") {
            Some(DataType::Number)
        } else if upper_equals(&c, "TEXT") {
            Some(DataType::Text)
        } else if upper_equals(&c, "BOOL") || upper_equals(&c, "BOOLEAN") {
            Some(DataType::Bool)
        } else if upper_equals(&c, "DATE") {
            Some(DataType::Date)
        } else if upper_equals(&c, "TIMESTAMP") {
            Some(DataType::Timestamp)
        } else if upper_equals(&c, "DATETIME") {
            Some(DataType::DateTime)
        } else if upper_equals(&c, "RECORD") {
            Some(DataType::Record)
        } else if upper_equals(&c, "NULL") {
            Some(DataType::Null)
        } else {
            None
        }
    }
}

impl Value {
    /// The value is NULL.
    pub fn is_null(&self) -> (r: bool)
        ensures
            r == (*self is Null),
    {
        match self {
            Value::Null => true,
            _ => false,
        }
    }

    /// The upper-case name of the value's type.
    pub fn type_label(&self) -> (r: &'static str)
        ensures
            r@ == type_name_spec(type_of(*self)),
    {
        DataType::from_value(self).name()
    }

    /// The number, when the value is one.
    pub fn as_number(&self) -> (r: Option<Number>)
        ensures
            r == (match *self {
                Value::Number(n) => Some(n),
                _ => None,
            }),
    {
        match self {
            Value::Number(n) => Some(*n),
            _ => None,
        }
    }

    /// The boolean, when the value is one.
    pub fn as_bool(&self) -> (r: Option<bool>)
        ensures
            r == (match *self {
                Value::Bool(b) => Some(b),
                _ => None,
            }),
    {
        match self {
            Value::Bool(b) => Some(*b),
            _ => None,
        }
    }

    /// The text, when the value is one.
    pub fn as_text(&self) -> (r: Option<&str>)
        ensures
            match *self {
                Value::Text(s) => r matches Some(t) && t@ == s@,
                _ => r is None,
            },
    {
        match self {
            Value::Text(s) => Some(s.as_str()),
            _ => None,
        }
    }

    /// The date, when the value is one.
    pub fn as_date(&self) -> (r: Option<&Date>)
        ensures
            r == (match *self {
                Value::Date(d) => Some(&d),
                _ => None,
            }),
    {
        match self {
            Value::Date(d) => Some(d),
            _ => None,
        }
    }

    /// The timestamp, when the value is one.
    pub fn as_timestamp(&self) -> (r: Option<&Timestamp>)
        ensures
            r == (match *self {
                Value::Timestamp(t) => Some(&t),
                _ => None,
            }),
    {
        match self {
            Value::Timestamp(t) => Some(t),
            _ => None,
        }
    }

    /// The date-time, when the value is one.
    pub fn as_datetime(&self) -> (r: Option<&DateTime>)
        ensures
            r == (match *self {
                Value::DateTime(t) => Some(&t),
                _ => None,
            }),
    {
        match self {
            Value::DateTime(t) => Some(t),
            _ => None,
        }
    }
}

} // verus!
