//! Long-form explanations of diagnostic codes, in the spirit of
//! `rustc --explain`.
//!
//! Each [`DiagCode`] has a paragraph describing *why* the error happens and a
//! short example contrasting the broken and fixed forms.

use vstd::prelude::*;

use crate::errors::{code_text, DiagCode};
use crate::text::str_eq;

verus! {

/// The explanation of each code.
pub open spec fn explanation(code: DiagCode) -> Seq<char> {
    match code {
        DiagCode::UnexpectedChar => "\
E0001: an unexpected character.

The lexer found a character that cannot begin any token. This is usually a typo
or a stray symbol that is not part of Lumen's syntax.

    fn main() { let x = 1 @ 2; }   // `@` is not a Lumen operator
"@,
        DiagCode::UnterminatedString => "\
E0002: an unterminated string literal.

A string literal was opened with `\"` but never closed before the end of the
line or file. Add the missing closing quote.

    let s = \"hello;     // error: no closing quote
    let s = \"hello\";    // ok
"@,
        DiagCode::InvalidNumber => "\
E0003: an invalid numeric literal.

A run of digits did not parse as a 64-bit number, usually because it is too
large to fit in a signed 64-bit integer.

    let big = 99999999999999999999999;   // does not fit in i64
"@,
        DiagCode::UnterminatedComment => "\
E0004: an unterminated block comment.

A `/* */` comment (which may nest) was opened but never closed. Add the matching
`*/`.

    /* a comment that never ends
"@,
        DiagCode::InvalidEscape => "\
E0005: an unknown string escape.

A backslash inside a string was followed by a character that is not a valid
escape. The valid escapes are \\n \\t \\r \\0 \\\\ and \\\".

    let s = \"bad\\q\";    // \\q is not an escape
"@,
        DiagCode::UnexpectedToken => "\
E0100: an unexpected token.

The parser found a token where the grammar did not allow it. The message names
what was expected and what was found.

    fn main() { let x 1; }   // expected `=`, found integer literal
"@,
        DiagCode::UnexpectedEof => "\
E0101: unexpected end of file.

Input ended in the middle of a construct, such as an unclosed block or a
statement missing its end.

    fn main() {            // the block is never closed
"@,
        DiagCode::ExpectedType => "\
E0102: expected a type.

A type annotation was required (after `:` or `->`) but something other than a
type was found.

    fn f(x: ) {}   // missing the parameter type
"@,
        DiagCode::UnresolvedName => "\
E0200: cannot find a name in scope.

A name was used that is not a local variable, parameter, function, constant, or
builtin visible here. Check for typos, or declare the binding first.

    fn main() { print_int(x); }   // `x` was never declared
"@,
        DiagCode::DuplicateDefinition => "\
E0201: a name is defined multiple times.

Two top-level items (functions, constants, or structs) share a name. Top-level
names occupy one namespace and must be unique.

    fn f() {}
    fn f() {}    // error: `f` already defined
"@,
        DiagCode::DuplicateParameter => "\
E0202: a parameter name is repeated.

A function declares the same parameter name twice. Parameter names within one
function must be distinct.

    fn f(x: i64, x: i64) {}   // `x` declared twice
"@,
        DiagCode::TypeMismatch => "\
E0300: mismatched types.

A value's type did not match the type required by its context - an annotation, a
function parameter, an assignment, or an operator. Lumen performs no implicit
conversions.

    let x: i64 = \"hello\";   // expected i64, found str
"@,
        DiagCode::ArityMismatch => "\
E0301: wrong number of arguments.

A call passed a different number of arguments than the function or builtin
expects.

    fn f(a: i64) {}
    fn main() { f(1, 2); }   // f takes 1 argument, 2 given
"@,
        DiagCode::NotCallable => "\
E0302: value is not callable.

Something that is not a function was called with `()`. Only functions and
builtins can be called.

    fn main() { let x = 1; x(); }   // `x` is an i64, not a function
"@,
        DiagCode::ReturnTypeMismatch => "\
E0303: return type mismatch.

A `return` (or a function's final expression) produced a value whose type does
not match the declared return type.

    fn f() -> i64 { return true; }   // expected i64, found bool
"@,
        DiagCode::NonBoolCondition => "\
E0304: a condition is not a boolean.

The condition of an `if` or `while` must have type `bool`. Lumen does not treat
integers as truthy.

    fn main() { if 1 { } }   // expected bool, found i64
"@,
        DiagCode::InvalidOperands => "\
E0305: invalid operands for an operator.

An operator was applied to operands of the wrong type - for example arithmetic
on booleans, mixing `i64` and `f64`, or `&&` on non-booleans.

    let x = 1 + 1.0;   // cannot add i64 and f64
"@,
        DiagCode::MissingReturn => "\
E0306: a function may not return a value.

A function with a non-`unit` return type can reach its end without returning.
Every path must produce a value.

    fn f(b: bool) -> i64 { if b { return 1; } }   // falls off the end
"@,
        DiagCode::AssignToImmutable => "\
E0307: cannot assign to an immutable binding.

Assignment targets a `let` binding that was not declared `mut`. Declare it with
`let mut` to allow reassignment.

    let x = 1; x = 2;        // error
    let mut x = 1; x = 2;    // ok
"@,
        DiagCode::BadMain => "\
E0308: invalid or missing `main`.

A program must define exactly one entry point `fn main()` taking no arguments
and returning `unit`.

    fn main(x: i64) {}   // main must take no arguments
"@,
        DiagCode::IfBranchMismatch => "\
E0309: `if` branches have incompatible types.

When an `if` is used as a value, its `then` and `else` branches must have the
same type; an `if` without `else` has type `unit`.

    let x = if c { 1 } else { false };   // i64 vs bool
"@,
        DiagCode::UnknownType => "\
E0310: unknown type.

A type annotation named a type that does not exist. The built-in types are i64,
f64, bool, str, and unit; struct types must be declared.

    fn f(x: i32) {}   // did you mean i64?
"@,
        DiagCode::InvalidAssignTarget => "\
E0311: invalid assignment target.

The left-hand side of an assignment is not a place that can be assigned to (a
variable, array element, or struct field).

    fn main() { 1 + 1 = 2; }   // cannot assign to an expression
"@,
        DiagCode::BreakOutsideLoop => "\
E0312: `break`/`continue` outside a loop.

`break` and `continue` are only meaningful inside a `while` or `for` loop.

    fn main() { break; }   // not in a loop
"@,
        DiagCode::NotConstant => "\
E0313: a `const` value is not constant.

A `const` initialiser must be evaluable at compile time: literals, operators, and
references to earlier constants - never function calls or variables.

    fn f() -> i64 { 1 }
    const N: i64 = f();   // calls are not constant
"@,
        DiagCode::BadArrayType => "\
E0314: invalid array type or empty literal.

Array elements must be a primitive type (i64, f64, bool, str), and an empty
array literal `[]` cannot have its type inferred.

    let a = [];   // cannot infer element type
"@,
        DiagCode::NotIndexable => "\
E0315: value cannot be indexed.

The `[]` index operator was applied to something that is not an array.

    fn main() { let x = 1; print_int(x[0]); }   // i64 is not indexable
"@,
        DiagCode::UnknownField => "\
E0316: no such field.

A field was accessed that the struct does not declare, or `.field` was used on a
non-struct value.

    struct P { x: i64 }
    fn main() { let p = P { x: 1 }; print_int(p.y); }   // no field `y`
"@,
        DiagCode::BadStructLiteral => "\
E0317: malformed struct literal.

A struct literal is missing fields, repeats a field, names a field that does not
exist, or names a type that is not a struct. Every declared field must be given
exactly once.

    struct P { x: i64, y: i64 }
    let p = P { x: 1 };   // missing field `y`
"@,
        DiagCode::NonExhaustiveMatch => "\
E0318: non-exhaustive `match`.

A `match` expression must handle every possible value of its scrutinee. Add the
missing patterns, or a wildcard `_` arm that catches everything else.

    match n {
        0 => print_str(\"zero\"),
        _ => print_str(\"other\"),   // without this arm, `match` is incomplete
    }
"@,
    }
}

/// The explanation for a known [`DiagCode`]. It starts with the code itself,
/// followed by `:` and a headline, and runs to more than a short line.
pub fn explain_code(code: DiagCode) -> (r: &'static str)
    ensures
        r@ == explanation(code),
        r@.len() > 40,
        r@.subrange(0, 5) == code_text(code),
        r@[5] == ':',
{
    match code {
        DiagCode::UnexpectedChar => {
            proof {
                reveal_strlit("\
E0001: an unexpected character.

The lexer found a character that cannot begin any token. This is usually a typo
or a stray symbol that is not part of Lumen's syntax.

    fn main() { let x = 1 @ 2; }   // `@` is not a Lumen operator
");
            }
            "\
E0001: an unexpected character.

The lexer found a character that cannot begin any token. This is usually a typo
or a stray symbol that is not part of Lumen's syntax.

    fn main() { let x = 1 @ 2; }   // `@` is not a Lumen operator
"
        },
        DiagCode::UnterminatedString => {
            proof {
                reveal_strlit("\
E0002: an unterminated string literal.

A string literal was opened with `\"` but never closed before the end of the
line or file. Add the missing closing quote.

    let s = \"hello;     // error: no closing quote
    let s = \"hello\";    // ok
");
            }
            "\
E0002: an unterminated string literal.

A string literal was opened with `\"` but never closed before the end of the
line or file. Add the missing closing quote.

    let s = \"hello;     // error: no closing quote
    let s = \"hello\";    // ok
"
        },
        DiagCode::InvalidNumber => {
            proof {
                reveal_strlit("\
E0003: an invalid numeric literal.

A run of digits did not parse as a 64-bit number, usually because it is too
large to fit in a signed 64-bit integer.

    let big = 99999999999999999999999;   // does not fit in i64
");
            }
            "\
E0003: an invalid numeric literal.

A run of digits did not parse as a 64-bit number, usually because it is too
large to fit in a signed 64-bit integer.

    let big = 99999999999999999999999;   // does not fit in i64
"
        },
        DiagCode::UnterminatedComment => {
            proof {
                reveal_strlit("\
E0004: an unterminated block comment.

A `/* */` comment (which may nest) was opened but never closed. Add the matching
`*/`.

    /* a comment that never ends
");
            }
            "\
E0004: an unterminated block comment.

A `/* */` comment (which may nest) was opened but never closed. Add the matching
`*/`.

    /* a comment that never ends
"
        },
        DiagCode::InvalidEscape => {
            proof {
                reveal_strlit("\
E0005: an unknown string escape.

A backslash inside a string was followed by a character that is not a valid
escape. The valid escapes are \\n \\t \\r \\0 \\\\ and \\\".

    let s = \"bad\\q\";    // \\q is not an escape
");
            }
            "\
E0005: an unknown string escape.

A backslash inside a string was followed by a character that is not a valid
escape. The valid escapes are \\n \\t \\r \\0 \\\\ and \\\".

    let s = \"bad\\q\";    // \\q is not an escape
"
        },
        DiagCode::UnexpectedToken => {
            proof {
                reveal_strlit("\
E0100: an unexpected token.

The parser found a token where the grammar did not allow it. The message names
what was expected and what was found.

    fn main() { let x 1; }   // expected `=`, found integer literal
");
            }
            "\
E0100: an unexpected token.

The parser found a token where the grammar did not allow it. The message names
what was expected and what was found.

    fn main() { let x 1; }   // expected `=`, found integer literal
"
        },
        DiagCode::UnexpectedEof => {
            proof {
                reveal_strlit("\
E0101: unexpected end of file.

Input ended in the middle of a construct, such as an unclosed block or a
statement missing its end.

    fn main() {            // the block is never closed
");
            }
            "\
E0101: unexpected end of file.

Input ended in the middle of a construct, such as an unclosed block or a
statement missing its end.

    fn main() {            // the block is never closed
"
        },
        DiagCode::ExpectedType => {
            proof {
                reveal_strlit("\
E0102: expected a type.

A type annotation was required (after `:` or `->`) but something other than a
type was found.

    fn f(x: ) {}   // missing the parameter type
");
            }
            "\
E0102: expected a type.

A type annotation was required (after `:` or `->`) but something other than a
type was found.

    fn f(x: ) {}   // missing the parameter type
"
        },
        DiagCode::UnresolvedName => {
            proof {
                reveal_strlit("\
E0200: cannot find a name in scope.

A name was used that is not a local variable, parameter, function, constant, or
builtin visible here. Check for typos, or declare the binding first.

    fn main() { print_int(x); }   // `x` was never declared
");
            }
            "\
E0200: cannot find a name in scope.

A name was used that is not a local variable, parameter, function, constant, or
builtin visible here. Check for typos, or declare the binding first.

    fn main() { print_int(x); }   // `x` was never declared
"
        },
        DiagCode::DuplicateDefinition => {
            proof {
                reveal_strlit("\
E0201: a name is defined multiple times.

Two top-level items (functions, constants, or structs) share a name. Top-level
names occupy one namespace and must be unique.

    fn f() {}
    fn f() {}    // error: `f` already defined
");
            }
            "\
E0201: a name is defined multiple times.

Two top-level items (functions, constants, or structs) share a name. Top-level
names occupy one namespace and must be unique.

    fn f() {}
    fn f() {}    // error: `f` already defined
"
        },
        DiagCode::DuplicateParameter => {
            proof {
                reveal_strlit("\
E0202: a parameter name is repeated.

A function declares the same parameter name twice. Parameter names within one
function must be distinct.

    fn f(x: i64, x: i64) {}   // `x` declared twice
");
            }
            "\
E0202: a parameter name is repeated.

A function declares the same parameter name twice. Parameter names within one
function must be distinct.

    fn f(x: i64, x: i64) {}   // `x` declared twice
"
        },
        DiagCode::TypeMismatch => {
            proof {
                reveal_strlit("\
E0300: mismatched types.

A value's type did not match the type required by its context - an annotation, a
function parameter, an assignment, or an operator. Lumen performs no implicit
conversions.

    let x: i64 = \"hello\";   // expected i64, found str
");
            }
            "\
E0300: mismatched types.

A value's type did not match the type required by its context - an annotation, a
function parameter, an assignment, or an operator. Lumen performs no implicit
conversions.

    let x: i64 = \"hello\";   // expected i64, found str
"
        },
        DiagCode::ArityMismatch => {
            proof {
                reveal_strlit("\
E0301: wrong number of arguments.

A call passed a different number of arguments than the function or builtin
expects.

    fn f(a: i64) {}
    fn main() { f(1, 2); }   // f takes 1 argument, 2 given
");
            }
            "\
E0301: wrong number of arguments.

A call passed a different number of arguments than the function or builtin
expects.

    fn f(a: i64) {}
    fn main() { f(1, 2); }   // f takes 1 argument, 2 given
"
        },
        DiagCode::NotCallable => {
            proof {
                reveal_strlit("\
E0302: value is not callable.

Something that is not a function was called with `()`. Only functions and
builtins can be called.

    fn main() { let x = 1; x(); }   // `x` is an i64, not a function
");
            }
            "\
E0302: value is not callable.

Something that is not a function was called with `()`. Only functions and
builtins can be called.

    fn main() { let x = 1; x(); }   // `x` is an i64, not a function
"
        },
        DiagCode::ReturnTypeMismatch => {
            proof {
                reveal_strlit("\
E0303: return type mismatch.

A `return` (or a function's final expression) produced a value whose type does
not match the declared return type.

    fn f() -> i64 { return true; }   // expected i64, found bool
");
            }
            "\
E0303: return type mismatch.

A `return` (or a function's final expression) produced a value whose type does
not match the declared return type.

    fn f() -> i64 { return true; }   // expected i64, found bool
"
        },
        DiagCode::NonBoolCondition => {
            proof {
                reveal_strlit("\
E0304: a condition is not a boolean.

The condition of an `if` or `while` must have type `bool`. Lumen does not treat
integers as truthy.

    fn main() { if 1 { } }   // expected bool, found i64
");
            }
            "\
E0304: a condition is not a boolean.

The condition of an `if` or `while` must have type `bool`. Lumen does not treat
integers as truthy.

    fn main() { if 1 { } }   // expected bool, found i64
"
        },
        DiagCode::InvalidOperands => {
            proof {
                reveal_strlit("\
E0305: invalid operands for an operator.

An operator was applied to operands of the wrong type - for example arithmetic
on booleans, mixing `i64` and `f64`, or `&&` on non-booleans.

    let x = 1 + 1.0;   // cannot add i64 and f64
");
            }
            "\
E0305: invalid operands for an operator.

An operator was applied to operands of the wrong type - for example arithmetic
on booleans, mixing `i64` and `f64`, or `&&` on non-booleans.

    let x = 1 + 1.0;   // cannot add i64 and f64
"
        },
        DiagCode::MissingReturn => {
            proof {
                reveal_strlit("\
E0306: a function may not return a value.

A function with a non-`unit` return type can reach its end without returning.
Every path must produce a value.

    fn f(b: bool) -> i64 { if b { return 1; } }   // falls off the end
");
            }
            "\
E0306: a function may not return a value.

A function with a non-`unit` return type can reach its end without returning.
Every path must produce a value.

    fn f(b: bool) -> i64 { if b { return 1; } }   // falls off the end
"
        },
        DiagCode::AssignToImmutable => {
            proof {
                reveal_strlit("\
E0307: cannot assign to an immutable binding.

Assignment targets a `let` binding that was not declared `mut`. Declare it with
`let mut` to allow reassignment.

    let x = 1; x = 2;        // error
    let mut x = 1; x = 2;    // ok
");
            }
            "\
E0307: cannot assign to an immutable binding.

Assignment targets a `let` binding that was not declared `mut`. Declare it with
`let mut` to allow reassignment.

    let x = 1; x = 2;        // error
    let mut x = 1; x = 2;    // ok
"
        },
        DiagCode::BadMain => {
            proof {
                reveal_strlit("\
E0308: invalid or missing `main`.

A program must define exactly one entry point `fn main()` taking no arguments
and returning `unit`.

    fn main(x: i64) {}   // main must take no arguments
");
            }
            "\
E0308: invalid or missing `main`.

A program must define exactly one entry point `fn main()` taking no arguments
and returning `unit`.

    fn main(x: i64) {}   // main must take no arguments
"
        },
        DiagCode::IfBranchMismatch => {
            proof {
                reveal_strlit("\
E0309: `if` branches have incompatible types.

When an `if` is used as a value, its `then` and `else` branches must have the
same type; an `if` without `else` has type `unit`.

    let x = if c { 1 } else { false };   // i64 vs bool
");
            }
            "\
E0309: `if` branches have incompatible types.

When an `if` is used as a value, its `then` and `else` branches must have the
same type; an `if` without `else` has type `unit`.

    let x = if c { 1 } else { false };   // i64 vs bool
"
        },
        DiagCode::UnknownType => {
            proof {
                reveal_strlit("\
E0310: unknown type.

A type annotation named a type that does not exist. The built-in types are i64,
f64, bool, str, and unit; struct types must be declared.

    fn f(x: i32) {}   // did you mean i64?
");
            }
            "\
E0310: unknown type.

A type annotation named a type that does not exist. The built-in types are i64,
f64, bool, str, and unit; struct types must be declared.

    fn f(x: i32) {}   // did you mean i64?
"
        },
        DiagCode::InvalidAssignTarget => {
            proof {
                reveal_strlit("\
E0311: invalid assignment target.

The left-hand side of an assignment is not a place that can be assigned to (a
variable, array element, or struct field).

    fn main() { 1 + 1 = 2; }   // cannot assign to an expression
");
            }
            "\
E0311: invalid assignment target.

The left-hand side of an assignment is not a place that can be assigned to (a
variable, array element, or struct field).

    fn main() { 1 + 1 = 2; }   // cannot assign to an expression
"
        },
        DiagCode::BreakOutsideLoop => {
            proof {
                reveal_strlit("\
E0312: `break`/`continue` outside a loop.

`break` and `continue` are only meaningful inside a `while` or `for` loop.

    fn main() { break; }   // not in a loop
");
            }
            "\
E0312: `break`/`continue` outside a loop.

`break` and `continue` are only meaningful inside a `while` or `for` loop.

    fn main() { break; }   // not in a loop
"
        },
        DiagCode::NotConstant => {
            proof {
                reveal_strlit("\
E0313: a `const` value is not constant.

A `const` initialiser must be evaluable at compile time: literals, operators, and
references to earlier constants - never function calls or variables.

    fn f() -> i64 { 1 }
    const N: i64 = f();   // calls are not constant
");
            }
            "\
E0313: a `const` value is not constant.

A `const` initialiser must be evaluable at compile time: literals, operators, and
references to earlier constants - never function calls or variables.

    fn f() -> i64 { 1 }
    const N: i64 = f();   // calls are not constant
"
        },
        DiagCode::BadArrayType => {
            proof {
                reveal_strlit("\
E0314: invalid array type or empty literal.

Array elements must be a primitive type (i64, f64, bool, str), and an empty
array literal `[]` cannot have its type inferred.

    let a = [];   // cannot infer element type
");
            }
            "\
E0314: invalid array type or empty literal.

Array elements must be a primitive type (i64, f64, bool, str), and an empty
array literal `[]` cannot have its type inferred.

    let a = [];   // cannot infer element type
"
        },
        DiagCode::NotIndexable => {
            proof {
                reveal_strlit("\
E0315: value cannot be indexed.

The `[]` index operator was applied to something that is not an array.

    fn main() { let x = 1; print_int(x[0]); }   // i64 is not indexable
");
            }
            "\
E0315: value cannot be indexed.

The `[]` index operator was applied to something that is not an array.

    fn main() { let x = 1; print_int(x[0]); }   // i64 is not indexable
"
        },
        DiagCode::UnknownField => {
            proof {
                reveal_strlit("\
E0316: no such field.

A field was accessed that the struct does not declare, or `.field` was used on a
non-struct value.

    struct P { x: i64 }
    fn main() { let p = P { x: 1 }; print_int(p.y); }   // no field `y`
");
            }
            "\
E0316: no such field.

A field was accessed that the struct does not declare, or `.field` was used on a
non-struct value.

    struct P { x: i64 }
    fn main() { let p = P { x: 1 }; print_int(p.y); }   // no field `y`
"
        },
        DiagCode::BadStructLiteral => {
            proof {
                reveal_strlit("\
E0317: malformed struct literal.

A struct literal is missing fields, repeats a field, names a field that does not
exist, or names a type that is not a struct. Every declared field must be given
exactly once.

    struct P { x: i64, y: i64 }
    let p = P { x: 1 };   // missing field `y`
");
            }
            "\
E0317: malformed struct literal.

A struct literal is missing fields, repeats a field, names a field that does not
exist, or names a type that is not a struct. Every declared field must be given
exactly once.

    struct P { x: i64, y: i64 }
    let p = P { x: 1 };   // missing field `y`
"
        },
        DiagCode::NonExhaustiveMatch => {
            proof {
                reveal_strlit("\
E0318: non-exhaustive `match`.

A `match` expression must handle every possible value of its scrutinee. Add the
missing patterns, or a wildcard `_` arm that catches everything else.

    match n {
        0 => print_str(\"zero\"),
        _ => print_str(\"other\"),   // without this arm, `match` is incomplete
    }
");
            }
            "\
E0318: non-exhaustive `match`.

A `match` expression must handle every possible value of its scrutinee. Add the
missing patterns, or a wildcard `_` arm that catches everything else.

    match n {
        0 => print_str(\"zero\"),
        _ => print_str(\"other\"),   // without this arm, `match` is incomplete
    }
"
        },
    }
}

/// Returns the long-form explanation for a diagnostic code string such as
/// `"E0300"`, or `None` if the code is unknown.
pub fn explain(code: &str) -> (r: Option<&'static str>)
    ensures
        r is Some <==> exists|c: DiagCode| code_text(c) == code@,
        forall|c: DiagCode| code_text(c) == code@ ==> (r matches Some(t) && t@ == explanation(c)),
        r matches Some(t) ==> t@.subrange(0, 5) == code@,
{
    let all = DiagCode::all();
    let mut i: usize = 0;
    while i < all.len()
        invariant
            all@.len() == 30,
            forall|c: DiagCode| #[trigger] all@.contains(c),
            0 <= i <= all@.len(),
            forall|k: int| 0 <= k < i ==> code_text(#[trigger] all@[k]) != code@,
        decreases all@.len() - i,
    {
        let c = all[i];
        if str_eq(c.as_str(), code) {
            return Some(explain_code(c));
        }
        i = i + 1;
    }
    proof {
        assert forall|c: DiagCode| code_text(c) != code@ by {
            assert(all@.contains(c));
        }
    }
    None
}

} // verus!
