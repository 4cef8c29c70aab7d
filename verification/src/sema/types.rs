//! The semantic type representation, shared by type checking and later
//! phases.
//!
//! Lumen is monomorphic with a closed set of primitive types, so [`Type`] is a
//! small `Copy` enum. The [`Type::Error`] variant is a poison value: it is
//! produced wherever a type error has already been reported and then absorbs
//! further checks involving it, which prevents a single mistake from cascading
//! into a flood of follow-on diagnostics.

use vstd::prelude::*;

use crate::text::{decimal, decimal_string, push_str, str_eq};

verus! {

/// The element type of an array: a `Copy` sub-enum of the primitive types.
#[derive(Clone, Copy, Debug, PartialEq, Eq, Hash, Structural)]
pub enum Elem {
    Int,
    Float,
    Bool,
    Str,
}

/// A Lumen value type.
#[derive(Clone, Copy, Debug, PartialEq, Eq, Hash, Structural)]
pub enum Type {
    /// 64-bit signed integer.
    Int,
    /// 64-bit IEEE-754 float.
    Float,
    /// Boolean.
    Bool,
    /// Immutable UTF-8 string.
    Str,
    /// The empty type, value of statements and `()`-returning functions.
    Unit,
    /// A growable array of a primitive element type.
    Array(Elem),
    /// A user-defined struct, identified by its dense struct index.
    Struct(u32),
    /// A tuple, identified by its interned (structural) tuple-type index.
    Tuple(u32),
    /// The error type: already reported, absorbs further checks.
    Error,
}

/// The full type of an array element kind.
pub open spec fn elem_type(e: Elem) -> Type {
    match e {
        Elem::Int => Type::Int,
        Elem::Float => Type::Float,
        Elem::Bool => Type::Bool,
        Elem::Str => Type::Str,
    }
}

/// The element kind of a primitive type, if it can be an array element.
pub open spec fn elem_of(t: Type) -> Option<Elem> {
    match t {
        Type::Int => Some(Elem::Int),
        Type::Float => Some(Elem::Float),
        Type::Bool => Some(Elem::Bool),
        Type::Str => Some(Elem::Str),
        _ => None,
    }
}

/// Compatibility for assignment/unification: the error type is compatible
/// with everything.
pub open spec fn spec_compatible(a: Type, b: Type) -> bool {
    a is Error || b is Error || a == b
}

/// The name of a primitive type as written in source.
pub open spec fn prim_name(t: Type) -> Seq<char> {
    match t {
        Type::Int => "i64"@,
        Type::Float => "f64"@,
        Type::Bool => "bool"@,
        Type::Str => "str"@,
        Type::Unit => "unit"@,
        _ => Seq::empty(),
    }
}

/// The primitive type written `name`, if any.
pub open spec fn prim_named(name: Seq<char>) -> Option<Type> {
    if name == "i64"@ {
        Some(Type::Int)
    } else if name == "f64"@ {
        Some(Type::Float)
    } else if name == "bool"@ {
        Some(Type::Bool)
    } else if name == "str"@ {
        Some(Type::Str)
    } else if name == "unit"@ {
        Some(Type::Unit)
    } else {
        None
    }
}

/// The display form of a type: its source name for primitives, `[e]` for
/// arrays, `struct#n` / `tuple#n` for user types, and `{error}`.
pub open spec fn type_text(t: Type) -> Seq<char> {
    match t {
        Type::Array(e) => "["@ + prim_name(elem_type(e)) + "]"@,
        Type::Struct(id) => "struct#"@ + decimal(id as nat),
        Type::Tuple(id) => "tuple#"@ + decimal(id as nat),
        Type::Error => "{error}"@,
        _ => prim_name(t),
    }
}

impl Elem {
    /// The full [`Type`] of this element.
    pub fn ty(self) -> (t: Type)
        ensures
            t == elem_type(self),
    {
        match self {
            Elem::Int => Type::Int,
            Elem::Float => Type::Float,
            Elem::Bool => Type::Bool,
            Elem::Str => Type::Str,
        }
    }

    /// The element kind for a primitive type, if it can be an array element.
    pub fn of(ty: Type) -> (r: Option<Elem>)
        ensures
            r == elem_of(ty),
    {
        match ty {
            Type::Int => Some(Elem::Int),
            Type::Float => Some(Elem::Float),
            Type::Bool => Some(Elem::Bool),
            Type::Str => Some(Elem::Str),
            _ => None,
        }
    }
}

/// Every primitive type reads back from the name it prints as: the
/// name `to_string` gives `i64`, `f64`, `bool`, `str` or `unit` is one that
/// `from_name` maps to that same type.
pub proof fn lemma_primitive_name_round_trip(t: Type)
    requires
        t is Int || t is Float || t is Bool || t is Str || t is Unit,
    ensures
        prim_named(type_text(t)) == Some(t),
{
    reveal_strlit("i64");
    reveal_strlit("f64");
    reveal_strlit("bool");
    reveal_strlit("str");
    reveal_strlit("unit");
    assert("f64"@[0] != "i64"@[0]);
    assert("bool"@.len() != "i64"@.len() && "bool"@.len() != "f64"@.len());
    assert("str"@[0] != "i64"@[0] && "str"@[0] != "f64"@[0] && "str"@.len() != "bool"@.len());
    assert("unit"@[0] != "i64"@[0] && "unit"@[0] != "f64"@[0] && "unit"@[0] != "bool"@[0] && "unit"@.len()
        != "str"@.len());
}

impl Type {
    /// Maps a primitive type name (as written in source) to its [`Type`].
    pub fn from_name(name: &str) -> (r: Option<Type>)
        ensures
            r == prim_named(name@),
            r matches Some(t) ==> prim_name(t) == name@ && prim_name(t).len() > 0,
            r is None ==> forall|t: Type| prim_name(t) != name@ || prim_name(t).len() == 0,
    {
        proof {
            reveal_strlit("i64");
            reveal_strlit("f64");
            reveal_strlit("bool");
            reveal_strlit("str");
            reveal_strlit("unit");
        }
        if str_eq(name, "i64") {
            Some(Type::Int)
        } else if str_eq(name, "f64") {
            Some(Type::Float)
        } else if str_eq(name, "bool") {
            Some(Type::Bool)
        } else if str_eq(name, "str") {
            Some(Type::Str)
        } else if str_eq(name, "unit") {
            Some(Type::Unit)
        } else {
            None
        }
    }

    /// The array type with the given element type.
    pub fn array_of(elem: Elem) -> (t: Type)
        ensures
            t == Type::Array(elem),
    {
        Type::Array(elem)
    }

    /// Whether this is the poison [`Type::Error`].
    pub fn is_error(self) -> (b: bool)
        ensures
            b == (self is Error),
    {
        matches!(self, Type::Error)
    }

    /// Whether this is an array type.
    pub fn is_array(self) -> (b: bool)
        ensures
            b == (self is Array),
    {
        matches!(self, Type::Array(_))
    }

    /// The element type if this is an array.
    pub fn elem(self) -> (r: Option<Elem>)
        ensures
            r == (match self {
                Type::Array(e) => Some(e),
                _ => None,
            }),
    {
        match self {
            Type::Array(e) => Some(e),
            _ => None,
        }
    }

    /// Whether two types are compatible for assignment/unification.
    ///
    /// [`Type::Error`] is compatible with everything, so that an
    /// already-reported error never triggers a second, spurious mismatch.
    pub fn compatible(self, other: Type) -> (b: bool)
        ensures
            b == spec_compatible(self, other),
    {
        self.is_error() || other.is_error() || self == other
    }

    /// Whether arithmetic operators (`+ - * / %`) apply to this type.
    pub fn is_numeric(self) -> (b: bool)
        ensures
            b == (self is Int || self is Float),
    {
        matches!(self, Type::Int | Type::Float)
    }

    /// The display form of this type, e.g. `i64`, `[str]` or `struct#0`.
    pub fn to_string(&self) -> (s: String)
        ensures
            s@ == type_text(*self),
    {
        proof {
            reveal_strlit("i64");
            reveal_strlit("f64");
            reveal_strlit("bool");
            reveal_strlit("str");
            reveal_strlit("unit");
        }
        match *self {
            Type::Int => "i64".to_owned(),
            Type::Float => "f64".to_owned(),
            Type::Bool => "bool".to_owned(),
            Type::Str => "str".to_owned(),
            Type::Unit => "unit".to_owned(),
            Type::Error => "{error}".to_owned(),
            Type::Array(e) => {
                proof {
                    reveal_strlit("[i64]");
                    reveal_strlit("[f64]");
                    reveal_strlit("[bool]");
                    reveal_strlit("[str]");
                    reveal_strlit("[");
                    reveal_strlit("]");
                }
                match e {
                    Elem::Int => "[i64]".to_owned(),
                    Elem::Float => "[f64]".to_owned(),
                    Elem::Bool => "[bool]".to_owned(),
                    Elem::Str => "[str]".to_owned(),
                }
            },
            Type::Struct(id) => {
                let mut s = "struct#".to_owned();
                let n = decimal_string(id as u64);
                push_str(&mut s, n.as_str());
                s
            },
            Type::Tuple(id) => {
                let mut s = "tuple#".to_owned();
                let n = decimal_string(id as u64);
                push_str(&mut s, n.as_str());
                s
            },
        }
    }
}

/// A compiler-provided function available to every program without declaration.
#[derive(Clone, Copy, Debug, PartialEq, Eq, Hash, Structural)]
pub enum Builtin {

    /// `print_int(i64) -> unit`
    PrintInt,
    /// `print_float(f64) -> unit`
    PrintFloat,
    /// `print_bool(bool) -> unit`
    PrintBool,
    /// `print_str(str) -> unit`
    PrintStr,
    /// `int_to_str(i64) -> str`
    IntToStr,
    /// `float_to_str(f64) -> str`
    FloatToStr,
    /// `bool_to_str(bool) -> str`
    BoolToStr,
    /// `str_len(str) -> i64` - length in bytes.
    StrLen,
    /// `len([T]) -> i64` - array length. Generic over the element type, so it
    /// is checked specially rather than through [`Builtin::params`].
    Len,

    // ---- integer math ----
    /// `abs(i64) -> i64`
    AbsInt,
    /// `min(i64, i64) -> i64`
    MinInt,
    /// `max(i64, i64) -> i64`
    MaxInt,
    /// `pow_int(i64, i64) -> i64` - non-negative exponent.
    PowInt,
    /// `gcd(i64, i64) -> i64` - greatest common divisor of the magnitudes.
    Gcd,
    /// `sign(i64) -> i64` - `-1`, `0`, or `1`.
    SignInt,
    /// `clamp(i64, i64, i64) -> i64` - clamp a value to `[lo, hi]`.
    ClampInt,

    // ---- float math ----
    /// `sqrt(f64) -> f64`
    Sqrt,
    /// `abs_float(f64) -> f64`
    AbsFloat,
    /// `floor(f64) -> i64`
    Floor,
    /// `pow_float(f64, f64) -> f64`
    PowFloat,
    /// `min_float(f64, f64) -> f64`
    MinFloat,
    /// `max_float(f64, f64) -> f64`
    MaxFloat,
    /// `ceil(f64) -> i64`
    Ceil,
    /// `round(f64) -> i64` - round half away from zero.
    Round,

    // ---- numeric conversions ----
    /// `to_float(i64) -> f64`
    IntToFloat,
    /// `to_int(f64) -> i64` - truncates toward zero.
    FloatToInt,

    // ---- string ----
    /// `substring(str, i64, i64) -> str` - byte range `[start, end)`.
    Substring,
    /// `char_at(str, i64) -> i64` - the byte at an index.
    CharAt,
    /// `str_repeat(str, i64) -> str`
    StrRepeat,
    /// `starts_with(str, str) -> bool`
    StartsWith,
    /// `ends_with(str, str) -> bool`
    EndsWith,
    /// `contains(str, str) -> bool`
    Contains,
    /// `index_of(str, str) -> i64` - byte offset of the first match, or `-1`.
    IndexOf,
    /// `parse_int(str) -> i64` - parse a decimal integer, or `0` on failure.
    ParseInt,
    /// `char_to_str(i64) -> str` - the one-byte string for a byte value.
    CharToStr,
    /// `to_upper(str) -> str` - ASCII upper-casing.
    ToUpper,
    /// `to_lower(str) -> str` - ASCII lower-casing.
    ToLower,
    /// `trim(str) -> str` - strip leading and trailing ASCII whitespace.
    Trim,

    // ---- more integer math ----
    /// `lcm(i64, i64) -> i64` - least common multiple (`0` if either is `0`).
    Lcm,
}

/// The name programs call a builtin by.
pub open spec fn builtin_name(b: Builtin) -> Seq<char> {
    match b {
        Builtin::PrintInt => "print_int"@,
        Builtin::PrintFloat => "print_float"@,
        Builtin::PrintBool => "print_bool"@,
        Builtin::PrintStr => "print_str"@,
        Builtin::IntToStr => "int_to_str"@,
        Builtin::FloatToStr => "float_to_str"@,
        Builtin::BoolToStr => "bool_to_str"@,
        Builtin::StrLen => "str_len"@,
        Builtin::Len => "len"@,
        Builtin::AbsInt => "abs"@,
        Builtin::MinInt => "min"@,
        Builtin::MaxInt => "max"@,
        Builtin::PowInt => "pow_int"@,
        Builtin::Gcd => "gcd"@,
        Builtin::SignInt => "sign"@,
        Builtin::ClampInt => "clamp"@,
        Builtin::Sqrt => "sqrt"@,
        Builtin::AbsFloat => "abs_float"@,
        Builtin::Floor => "floor"@,
        Builtin::PowFloat => "pow_float"@,
        Builtin::MinFloat => "min_float"@,
        Builtin::MaxFloat => "max_float"@,
        Builtin::Ceil => "ceil"@,
        Builtin::Round => "round"@,
        Builtin::IntToFloat => "to_float"@,
        Builtin::FloatToInt => "to_int"@,
        Builtin::Substring => "substring"@,
        Builtin::CharAt => "char_at"@,
        Builtin::StrRepeat => "str_repeat"@,
        Builtin::StartsWith => "starts_with"@,
        Builtin::EndsWith => "ends_with"@,
        Builtin::Contains => "contains"@,
        Builtin::IndexOf => "index_of"@,
        Builtin::ParseInt => "parse_int"@,
        Builtin::CharToStr => "char_to_str"@,
        Builtin::ToUpper => "to_upper"@,
        Builtin::ToLower => "to_lower"@,
        Builtin::Trim => "trim"@,
        Builtin::Lcm => "lcm"@,
    }
}

/// The parameter types of a builtin (empty for the generic `len`).
pub open spec fn builtin_params(b: Builtin) -> Seq<Type> {
    match b {
        Builtin::PrintInt => seq![Type::Int],
        Builtin::PrintFloat => seq![Type::Float],
        Builtin::PrintBool => seq![Type::Bool],
        Builtin::PrintStr => seq![Type::Str],
        Builtin::IntToStr => seq![Type::Int],
        Builtin::FloatToStr => seq![Type::Float],
        Builtin::BoolToStr => seq![Type::Bool],
        Builtin::StrLen => seq![Type::Str],
        Builtin::Len => Seq::<Type>::empty(),
        Builtin::AbsInt => seq![Type::Int],
        Builtin::MinInt => seq![Type::Int, Type::Int],
        Builtin::MaxInt => seq![Type::Int, Type::Int],
        Builtin::PowInt => seq![Type::Int, Type::Int],
        Builtin::Gcd => seq![Type::Int, Type::Int],
        Builtin::SignInt => seq![Type::Int],
        Builtin::ClampInt => seq![Type::Int, Type::Int, Type::Int],
        Builtin::Sqrt => seq![Type::Float],
        Builtin::AbsFloat => seq![Type::Float],
        Builtin::Floor => seq![Type::Float],
        Builtin::PowFloat => seq![Type::Float, Type::Float],
        Builtin::MinFloat => seq![Type::Float, Type::Float],
        Builtin::MaxFloat => seq![Type::Float, Type::Float],
        Builtin::Ceil => seq![Type::Float],
        Builtin::Round => seq![Type::Float],
        Builtin::IntToFloat => seq![Type::Int],
        Builtin::FloatToInt => seq![Type::Float],
        Builtin::Substring => seq![Type::Str, Type::Int, Type::Int],
        Builtin::CharAt => seq![Type::Str, Type::Int],
        Builtin::StrRepeat => seq![Type::Str, Type::Int],
        Builtin::StartsWith => seq![Type::Str, Type::Str],
        Builtin::EndsWith => seq![Type::Str, Type::Str],
        Builtin::Contains => seq![Type::Str, Type::Str],
        Builtin::IndexOf => seq![Type::Str, Type::Str],
        Builtin::ParseInt => seq![Type::Str],
        Builtin::CharToStr => seq![Type::Int],
        Builtin::ToUpper => seq![Type::Str],
        Builtin::ToLower => seq![Type::Str],
        Builtin::Trim => seq![Type::Str],
        Builtin::Lcm => seq![Type::Int, Type::Int],
    }
}

/// The result type of a builtin.
pub open spec fn builtin_ret(b: Builtin) -> Type {
    match b {
        Builtin::PrintInt => Type::Unit,
        Builtin::PrintFloat => Type::Unit,
        Builtin::PrintBool => Type::Unit,
        Builtin::PrintStr => Type::Unit,
        Builtin::IntToStr => Type::Str,
        Builtin::FloatToStr => Type::Str,
        Builtin::BoolToStr => Type::Str,
        Builtin::StrLen => Type::Int,
        Builtin::Len => Type::Int,
        Builtin::AbsInt => Type::Int,
        Builtin::MinInt => Type::Int,
        Builtin::MaxInt => Type::Int,
        Builtin::PowInt => Type::Int,
        Builtin::Gcd => Type::Int,
        Builtin::SignInt => Type::Int,
        Builtin::ClampInt => Type::Int,
        Builtin::Sqrt => Type::Float,
        Builtin::AbsFloat => Type::Float,
        Builtin::Floor => Type::Int,
        Builtin::PowFloat => Type::Float,
        Builtin::MinFloat => Type::Float,
        Builtin::MaxFloat => Type::Float,
        Builtin::Ceil => Type::Int,
        Builtin::Round => Type::Int,
        Builtin::IntToFloat => Type::Float,
        Builtin::FloatToInt => Type::Int,
        Builtin::Substring => Type::Str,
        Builtin::CharAt => Type::Int,
        Builtin::StrRepeat => Type::Str,
        Builtin::StartsWith => Type::Bool,
        Builtin::EndsWith => Type::Bool,
        Builtin::Contains => Type::Bool,
        Builtin::IndexOf => Type::Int,
        Builtin::ParseInt => Type::Int,
        Builtin::CharToStr => Type::Str,
        Builtin::ToUpper => Type::Str,
        Builtin::ToLower => Type::Str,
        Builtin::Trim => Type::Str,
        Builtin::Lcm => Type::Int,
    }
}

impl Builtin {
    /// Every builtin, used to seed the global name scope.
    pub fn all() -> (v: Vec<Builtin>)
        ensures
            v@.len() == 39,
            forall|b: Builtin| #[trigger] v@.contains(b),
    {
        let v = vec![
            Builtin::PrintInt,
            Builtin::PrintFloat,
            Builtin::PrintBool,
            Builtin::PrintStr,
            Builtin::IntToStr,
            Builtin::FloatToStr,
            Builtin::BoolToStr,
            Builtin::StrLen,
            Builtin::Len,
            Builtin::AbsInt,
            Builtin::MinInt,
            Builtin::MaxInt,
            Builtin::PowInt,
            Builtin::Gcd,
            Builtin::SignInt,
            Builtin::ClampInt,
            Builtin::Sqrt,
            Builtin::AbsFloat,
            Builtin::Floor,
            Builtin::PowFloat,
            Builtin::MinFloat,
            Builtin::MaxFloat,
            Builtin::Ceil,
            Builtin::Round,
            Builtin::IntToFloat,
            Builtin::FloatToInt,
            Builtin::Substring,
            Builtin::CharAt,
            Builtin::StrRepeat,
            Builtin::StartsWith,
            Builtin::EndsWith,
            Builtin::Contains,
            Builtin::IndexOf,
            Builtin::ParseInt,
            Builtin::CharToStr,
            Builtin::ToUpper,
            Builtin::ToLower,
            Builtin::Trim,
            Builtin::Lcm,
        ];
        assert forall|b: Builtin| #[trigger] v@.contains(b) by {
            match b {
                Builtin::PrintInt => assert(v@[0] == b),
                Builtin::PrintFloat => assert(v@[1] == b),
                Builtin::PrintBool => assert(v@[2] == b),
                Builtin::PrintStr => assert(v@[3] == b),
                Builtin::IntToStr => assert(v@[4] == b),
                Builtin::FloatToStr => assert(v@[5] == b),
                Builtin::BoolToStr => assert(v@[6] == b),
                Builtin::StrLen => assert(v@[7] == b),
                Builtin::Len => assert(v@[8] == b),
                Builtin::AbsInt => assert(v@[9] == b),
                Builtin::MinInt => assert(v@[10] == b),
                Builtin::MaxInt => assert(v@[11] == b),
                Builtin::PowInt => assert(v@[12] == b),
                Builtin::Gcd => assert(v@[13] == b),
                Builtin::SignInt => assert(v@[14] == b),
                Builtin::ClampInt => assert(v@[15] == b),
                Builtin::Sqrt => assert(v@[16] == b),
                Builtin::AbsFloat => assert(v@[17] == b),
                Builtin::Floor => assert(v@[18] == b),
                Builtin::PowFloat => assert(v@[19] == b),
                Builtin::MinFloat => assert(v@[20] == b),
                Builtin::MaxFloat => assert(v@[21] == b),
                Builtin::Ceil => assert(v@[22] == b),
                Builtin::Round => assert(v@[23] == b),
                Builtin::IntToFloat => assert(v@[24] == b),
                Builtin::FloatToInt => assert(v@[25] == b),
                Builtin::Substring => assert(v@[26] == b),
                Builtin::CharAt => assert(v@[27] == b),
                Builtin::StrRepeat => assert(v@[28] == b),
                Builtin::StartsWith => assert(v@[29] == b),
                Builtin::EndsWith => assert(v@[30] == b),
                Builtin::Contains => assert(v@[31] == b),
                Builtin::IndexOf => assert(v@[32] == b),
                Builtin::ParseInt => assert(v@[33] == b),
                Builtin::CharToStr => assert(v@[34] == b),
                Builtin::ToUpper => assert(v@[35] == b),
                Builtin::ToLower => assert(v@[36] == b),
                Builtin::Trim => assert(v@[37] == b),
                Builtin::Lcm => assert(v@[38] == b),
            }
        }
        v
    }

    /// The name programs call this builtin by.
    pub fn name(self) -> (s: &'static str)
        ensures
            s@ == builtin_name(self),
    {
        match self {
            Builtin::PrintInt => {
                proof {
                    reveal_strlit("print_int");
                }
                "print_int"
            },
            Builtin::PrintFloat => {
                proof {
                    reveal_strlit("print_float");
                }
                "print_float"
            },
            Builtin::PrintBool => {
                proof {
                    reveal_strlit("print_bool");
                }
                "print_bool"
            },
            Builtin::PrintStr => {
                proof {
                    reveal_strlit("print_str");
                }
                "print_str"
            },
            Builtin::IntToStr => {
                proof {
                    reveal_strlit("int_to_str");
                }
                "int_to_str"
            },
            Builtin::FloatToStr => {
                proof {
                    reveal_strlit("float_to_str");
                }
                "float_to_str"
            },
            Builtin::BoolToStr => {
                proof {
                    reveal_strlit("bool_to_str");
                }
                "bool_to_str"
            },
            Builtin::StrLen => {
                proof {
                    reveal_strlit("str_len");
                }
                "str_len"
            },
            Builtin::Len => {
                proof {
                    reveal_strlit("len");
                }
                "len"
            },
            Builtin::AbsInt => {
                proof {
                    reveal_strlit("abs");
                }
                "abs"
            },
            Builtin::MinInt => {
                proof {
                    reveal_strlit("min");
                }
                "min"
            },
            Builtin::MaxInt => {
                proof {
                    reveal_strlit("max");
                }
                "max"
            },
            Builtin::PowInt => {
                proof {
                    reveal_strlit("pow_int");
                }
                "pow_int"
            },
            Builtin::Gcd => {
                proof {
                    reveal_strlit("gcd");
                }
                "gcd"
            },
            Builtin::SignInt => {
                proof {
                    reveal_strlit("sign");
                }
                "sign"
            },
            Builtin::ClampInt => {
                proof {
                    reveal_strlit("clamp");
                }
                "clamp"
            },
            Builtin::Sqrt => {
                proof {
                    reveal_strlit("sqrt");
                }
                "sqrt"
            },
            Builtin::AbsFloat => {
                proof {
                    reveal_strlit("abs_float");
                }
                "abs_float"
            },
            Builtin::Floor => {
                proof {
                    reveal_strlit("floor");
                }
                "floor"
            },
            Builtin::PowFloat => {
                proof {
                    reveal_strlit("pow_float");
                }
                "pow_float"
            },
            Builtin::MinFloat => {
                proof {
                    reveal_strlit("min_float");
                }
                "min_float"
            },
            Builtin::MaxFloat => {
                proof {
                    reveal_strlit("max_float");
                }
                "max_float"
            },
            Builtin::Ceil => {
                proof {
                    reveal_strlit("ceil");
                }
                "ceil"
            },
            Builtin::Round => {
                proof {
                    reveal_strlit("round");
                }
                "round"
            },
            Builtin::IntToFloat => {
                proof {
                    reveal_strlit("to_float");
                }
                "to_float"
            },
            Builtin::FloatToInt => {
                proof {
                    reveal_strlit("to_int");
                }
                "to_int"
            },
            Builtin::Substring => {
                proof {
                    reveal_strlit("substring");
                }
                "substring"
            },
            Builtin::CharAt => {
                proof {
                    reveal_strlit("char_at");
                }
                "char_at"
            },
            Builtin::StrRepeat => {
                proof {
                    reveal_strlit("str_repeat");
                }
                "str_repeat"
            },
            Builtin::StartsWith => {
                proof {
                    reveal_strlit("starts_with");
                }
                "starts_with"
            },
            Builtin::EndsWith => {
                proof {
                    reveal_strlit("ends_with");
                }
                "ends_with"
            },
            Builtin::Contains => {
                proof {
                    reveal_strlit("contains");
                }
                "contains"
            },
            Builtin::IndexOf => {
                proof {
                    reveal_strlit("index_of");
                }
                "index_of"
            },
            Builtin::ParseInt => {
                proof {
                    reveal_strlit("parse_int");
                }
                "parse_int"
            },
            Builtin::CharToStr => {
                proof {
                    reveal_strlit("char_to_str");
                }
                "char_to_str"
            },
            Builtin::ToUpper => {
                proof {
                    reveal_strlit("to_upper");
                }
                "to_upper"
            },
            Builtin::ToLower => {
                proof {
                    reveal_strlit("to_lower");
                }
                "to_lower"
            },
            Builtin::Trim => {
                proof {
                    reveal_strlit("trim");
                }
                "trim"
            },
            Builtin::Lcm => {
                proof {
                    reveal_strlit("lcm");
                }
                "lcm"
            },
        }
    }

    /// The builtin invoked by `name`, if any.
    pub fn from_name(name: &str) -> (r: Option<Builtin>)
        ensures
            r matches Some(b) ==> builtin_name(b) == name@,
            r is None ==> forall|b: Builtin| builtin_name(b) != name@,
    {
        let all = Builtin::all();
        let mut i: usize = 0;
        while i < all.len()
            invariant
                0 <= i <= all@.len(),
                all@.len() == 39,
                forall|b: Builtin| #[trigger] all@.contains(b),
                forall|k: int| 0 <= k < i ==> builtin_name(#[trigger] all@[k]) != name@,
            decreases all@.len() - i,
        {
            let b = all[i];
            if str_eq(b.name(), name) {
                return Some(b);
            }
            i = i + 1;
        }
        proof {
            assert forall|b: Builtin| builtin_name(b) != name@ by {
                assert(all@.contains(b));
            }
        }
        None
    }

    /// Whether this builtin's signature is generic and therefore checked
    /// specially (it cannot be described by a fixed parameter list).
    pub fn is_generic(self) -> (g: bool)
        ensures
            g == (self is Len),
    {
        matches!(self, Builtin::Len)
    }

    /// The parameter types this builtin accepts. Empty for generic builtins.
    pub fn params(self) -> (v: Vec<Type>)
        ensures
            v@ == builtin_params(self),
    {
        match self {
            Builtin::PrintInt => vec![Type::Int],
            Builtin::PrintFloat => vec![Type::Float],
            Builtin::PrintBool => vec![Type::Bool],
            Builtin::PrintStr => vec![Type::Str],
            Builtin::IntToStr => vec![Type::Int],
            Builtin::FloatToStr => vec![Type::Float],
            Builtin::BoolToStr => vec![Type::Bool],
            Builtin::StrLen => vec![Type::Str],
            Builtin::Len => Vec::new(),
            Builtin::AbsInt => vec![Type::Int],
            Builtin::MinInt => vec![Type::Int, Type::Int],
            Builtin::MaxInt => vec![Type::Int, Type::Int],
            Builtin::PowInt => vec![Type::Int, Type::Int],
            Builtin::Gcd => vec![Type::Int, Type::Int],
            Builtin::SignInt => vec![Type::Int],
            Builtin::ClampInt => vec![Type::Int, Type::Int, Type::Int],
            Builtin::Sqrt => vec![Type::Float],
            Builtin::AbsFloat => vec![Type::Float],
            Builtin::Floor => vec![Type::Float],
            Builtin::PowFloat => vec![Type::Float, Type::Float],
            Builtin::MinFloat => vec![Type::Float, Type::Float],
            Builtin::MaxFloat => vec![Type::Float, Type::Float],
            Builtin::Ceil => vec![Type::Float],
            Builtin::Round => vec![Type::Float],
            Builtin::IntToFloat => vec![Type::Int],
            Builtin::FloatToInt => vec![Type::Float],
            Builtin::Substring => vec![Type::Str, Type::Int, Type::Int],
            Builtin::CharAt => vec![Type::Str, Type::Int],
            Builtin::StrRepeat => vec![Type::Str, Type::Int],
            Builtin::StartsWith => vec![Type::Str, Type::Str],
            Builtin::EndsWith => vec![Type::Str, Type::Str],
            Builtin::Contains => vec![Type::Str, Type::Str],
            Builtin::IndexOf => vec![Type::Str, Type::Str],
            Builtin::ParseInt => vec![Type::Str],
            Builtin::CharToStr => vec![Type::Int],
            Builtin::ToUpper => vec![Type::Str],
            Builtin::ToLower => vec![Type::Str],
            Builtin::Trim => vec![Type::Str],
            Builtin::Lcm => vec![Type::Int, Type::Int],
        }
    }

    /// The result type of this builtin.
    pub fn ret(self) -> (t: Type)
        ensures
            t == builtin_ret(self),
    {
        match self {
            Builtin::PrintInt => Type::Unit,
            Builtin::PrintFloat => Type::Unit,
            Builtin::PrintBool => Type::Unit,
            Builtin::PrintStr => Type::Unit,
            Builtin::IntToStr => Type::Str,
            Builtin::FloatToStr => Type::Str,
            Builtin::BoolToStr => Type::Str,
            Builtin::StrLen => Type::Int,
            Builtin::Len => Type::Int,
            Builtin::AbsInt => Type::Int,
            Builtin::MinInt => Type::Int,
            Builtin::MaxInt => Type::Int,
            Builtin::PowInt => Type::Int,
            Builtin::Gcd => Type::Int,
            Builtin::SignInt => Type::Int,
            Builtin::ClampInt => Type::Int,
            Builtin::Sqrt => Type::Float,
            Builtin::AbsFloat => Type::Float,
            Builtin::Floor => Type::Int,
            Builtin::PowFloat => Type::Float,
            Builtin::MinFloat => Type::Float,
            Builtin::MaxFloat => Type::Float,
            Builtin::Ceil => Type::Int,
            Builtin::Round => Type::Int,
            Builtin::IntToFloat => Type::Float,
            Builtin::FloatToInt => Type::Int,
            Builtin::Substring => Type::Str,
            Builtin::CharAt => Type::Int,
            Builtin::StrRepeat => Type::Str,
            Builtin::StartsWith => Type::Bool,
            Builtin::EndsWith => Type::Bool,
            Builtin::Contains => Type::Bool,
            Builtin::IndexOf => Type::Int,
            Builtin::ParseInt => Type::Int,
            Builtin::CharToStr => Type::Str,
            Builtin::ToUpper => Type::Str,
            Builtin::ToLower => Type::Str,
            Builtin::Trim => Type::Str,
            Builtin::Lcm => Type::Int,
        }
    }
}

} // verus!
