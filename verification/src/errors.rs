//! The central registry of stable diagnostic codes.
//!
//! Every user-facing error carries a code from this enum. Codes are grouped by
//! phase in blocks of one hundred:
//!
//! | Range          | Phase            |
//! |----------------|------------------|
//! | `E0001..`      | lexer            |
//! | `E0100..`      | parser           |
//! | `E0200..`      | name resolution  |
//! | `E0300..`      | type checking    |
//!
//! Codes are append-only: once shipped, a code's meaning is frozen.

use vstd::prelude::*;

verus! {

/// A stable, user-visible diagnostic code such as `E0301`.
#[derive(Clone, Copy, Debug, PartialEq, Eq, Hash, Structural)]
pub enum DiagCode {

    // ---- Lexer (E00xx) ----
    /// A character that cannot begin any token.
    UnexpectedChar,
    /// A string literal without a closing quote.
    UnterminatedString,
    /// A numeric literal that does not parse (e.g. `1.2.3`).
    InvalidNumber,
    /// A `/* */` comment without a closing `*/`.
    UnterminatedComment,
    /// An unknown string escape such as `\q`.
    InvalidEscape,

    // ---- Parser (E01xx) ----
    /// A token appeared where the grammar did not allow it.
    UnexpectedToken,
    /// Input ended in the middle of a construct.
    UnexpectedEof,
    /// A type name was expected but something else was found.
    ExpectedType,

    // ---- Name resolution (E02xx) ----
    /// A name was used but never declared in scope.
    UnresolvedName,
    /// Two items/locals share a name where that is not allowed.
    DuplicateDefinition,
    /// A function declares the same parameter name twice.
    DuplicateParameter,

    // ---- Type checking (E03xx) ----
    /// An expression's type did not match the expected type.
    TypeMismatch,
    /// A call passed the wrong number of arguments.
    ArityMismatch,
    /// A non-function value was called.
    NotCallable,
    /// A `return` value disagreed with the function's return type.
    ReturnTypeMismatch,
    /// An `if`/`while` condition was not `bool`.
    NonBoolCondition,
    /// An operator was applied to operands of incompatible type.
    InvalidOperands,
    /// A function with a non-`unit` return type can fall off its end.
    MissingReturn,
    /// Assignment to an immutable binding.
    AssignToImmutable,
    /// The program has no `main` function, or `main` has the wrong signature.
    BadMain,
    /// `if` branches produced differing types in value position.
    IfBranchMismatch,
    /// A type annotation named a type that does not exist.
    UnknownType,
    /// The left-hand side of an assignment is not an assignable place.
    InvalidAssignTarget,
    /// `break` or `continue` used outside of any loop.
    BreakOutsideLoop,
    /// A `const` initialiser is not a compile-time constant expression.
    NotConstant,
    /// An array element type is not a supported primitive.
    BadArrayType,
    /// Indexing applied to a value that is not an array.
    NotIndexable,
    /// Access to a field that the struct does not declare, or field access on a
    /// non-struct value.
    UnknownField,
    /// A struct literal with missing, duplicate, extra, or unknown fields.
    BadStructLiteral,
    /// A `match` whose arms do not cover every possible value of the scrutinee.
    NonExhaustiveMatch,
}

/// The decimal digit character for `d` (`0 <= d < 10`).
pub open spec fn digit_char(d: nat) -> char {
    if d == 0 { '0' } else if d == 1 { '1' } else if d == 2 { '2' } else if d == 3 { '3' }
    else if d == 4 { '4' } else if d == 5 { '5' } else if d == 6 { '6' } else if d == 7 { '7' }
    else if d == 8 { '8' } else { '9' }
}

/// The number of a code: `E0301` is 301.
pub open spec fn code_number(c: DiagCode) -> nat {
    match c {
        DiagCode::UnexpectedChar => 1,
        DiagCode::UnterminatedString => 2,
        DiagCode::InvalidNumber => 3,
        DiagCode::UnterminatedComment => 4,
        DiagCode::InvalidEscape => 5,
        DiagCode::UnexpectedToken => 100,
        DiagCode::UnexpectedEof => 101,
        DiagCode::ExpectedType => 102,
        DiagCode::UnresolvedName => 200,
        DiagCode::DuplicateDefinition => 201,
        DiagCode::DuplicateParameter => 202,
        DiagCode::TypeMismatch => 300,
        DiagCode::ArityMismatch => 301,
        DiagCode::NotCallable => 302,
        DiagCode::ReturnTypeMismatch => 303,
        DiagCode::NonBoolCondition => 304,
        DiagCode::InvalidOperands => 305,
        DiagCode::MissingReturn => 306,
        DiagCode::AssignToImmutable => 307,
        DiagCode::BadMain => 308,
        DiagCode::IfBranchMismatch => 309,
        DiagCode::UnknownType => 310,
        DiagCode::InvalidAssignTarget => 311,
        DiagCode::BreakOutsideLoop => 312,
        DiagCode::NotConstant => 313,
        DiagCode::BadArrayType => 314,
        DiagCode::NotIndexable => 315,
        DiagCode::UnknownField => 316,
        DiagCode::BadStructLiteral => 317,
        DiagCode::NonExhaustiveMatch => 318,
    }
}

/// The canonical text of a code: `E` followed by its number in four digits.
pub open spec fn code_text(c: DiagCode) -> Seq<char> {
    let n = code_number(c);
    seq!['E', digit_char(n / 1000), digit_char((n / 100) % 10), digit_char((n / 10) % 10), digit_char(n % 10)]
}

/// Distinct codes have distinct numbers.
pub proof fn lemma_code_number_injective(a: DiagCode, b: DiagCode)
    ensures
        code_number(a) == code_number(b) ==> a == b,
{
}

/// Codes are unique: two codes with the same text are the same code.
pub proof fn lemma_codes_are_unique(a: DiagCode, b: DiagCode)
    ensures
        code_text(a) == code_text(b) ==> a == b,
{
    if code_text(a) == code_text(b) {
        let na = code_number(a);
        let nb = code_number(b);
        assert(code_text(a)[1] == code_text(b)[1]);
        assert(code_text(a)[2] == code_text(b)[2]);
        assert(code_text(a)[3] == code_text(b)[3]);
        assert(code_text(a)[4] == code_text(b)[4]);
        assert(na == nb);
    }
}

/// Whether `a` comes before `b` in dictionary order of their characters.
pub open spec fn text_before(a: Seq<char>, b: Seq<char>) -> bool {
    exists|k: int|
        0 <= k < a.len() && k < b.len() && a[k] < b[k] && forall|m: int| 0 <= m < k ==> #[trigger] a[m] == b[m]
}

proof fn lemma_digit_char_lt(a: nat, b: nat)
    requires
        a < b < 10,
    ensures
        digit_char(a) < digit_char(b),
{
}

proof fn lemma_digits_order(x: nat, y: nat)
    requires
        x < y < 1000,
    ensures
        x / 1000 == 0 && y / 1000 == 0,
        (x / 100) % 10 < (y / 100) % 10 || ((x / 100) % 10 == (y / 100) % 10 && ((x / 10) % 10 < (y / 10) % 10 || (
        (x / 10) % 10 == (y / 10) % 10 && x % 10 < y % 10))),
        (x / 100) % 10 < 10 && (x / 10) % 10 < 10 && x % 10 < 10,
        (y / 100) % 10 < 10 && (y / 10) % 10 < 10 && y % 10 < 10,
{
    assert(x / 1000 == 0 && y / 1000 == 0) by (nonlinear_arith)
        requires
            x < 1000,
            y < 1000,
    ;
    assert((x / 100) % 10 < (y / 100) % 10 || ((x / 100) % 10 == (y / 100) % 10 && ((x / 10) % 10 < (y / 10) % 10 || (
    (x / 10) % 10 == (y / 10) % 10 && x % 10 < y % 10)))) by (nonlinear_arith)
        requires
            x < y,
            y < 1000,
    ;
}

/// The codes are ordered as strings as they are by number: a code with a
/// smaller number has a text that sorts first, so [`DiagCode::all`], in
/// numeric order, is in string order too.
pub proof fn lemma_code_text_order(a: DiagCode, b: DiagCode)
    requires
        code_number(a) < code_number(b),
    ensures
        text_before(code_text(a), code_text(b)),
{
    let x = code_number(a);
    let y = code_number(b);
    lemma_digits_order(x, y);
    let ta = code_text(a);
    let tb = code_text(b);
    assert(x / 100 < 10 && y / 100 < 10);
    if (x / 100) % 10 < (y / 100) % 10 {
        lemma_digit_char_lt((x / 100) % 10, (y / 100) % 10);
        assert(ta[2] < tb[2]);
        assert(forall|m: int| 0 <= m < 2 ==> #[trigger] ta[m] == tb[m]);
    } else if (x / 10) % 10 < (y / 10) % 10 {
        lemma_digit_char_lt((x / 10) % 10, (y / 10) % 10);
        assert(ta[3] < tb[3]);
        assert(forall|m: int| 0 <= m < 3 ==> #[trigger] ta[m] == tb[m]);
    } else {
        lemma_digit_char_lt(x % 10, y % 10);
        assert(ta[4] < tb[4]);
        assert(forall|m: int| 0 <= m < 4 ==> #[trigger] ta[m] == tb[m]);
    }
}

impl DiagCode {
    /// Every diagnostic code, in numeric order.
    pub fn all() -> (v: Vec<DiagCode>)
        ensures
            v@.len() == 30,
            forall|c: DiagCode| #[trigger] v@.contains(c),
            forall|i: int, j: int| 0 <= i < j < v@.len() ==> code_number(#[trigger] v@[i]) < code_number(#[trigger] v@[j]),
    {
        let v = vec![
            DiagCode::UnexpectedChar,
            DiagCode::UnterminatedString,
            DiagCode::InvalidNumber,
            DiagCode::UnterminatedComment,
            DiagCode::InvalidEscape,
            DiagCode::UnexpectedToken,
            DiagCode::UnexpectedEof,
            DiagCode::ExpectedType,
            DiagCode::UnresolvedName,
            DiagCode::DuplicateDefinition,
            DiagCode::DuplicateParameter,
            DiagCode::TypeMismatch,
            DiagCode::ArityMismatch,
            DiagCode::NotCallable,
            DiagCode::ReturnTypeMismatch,
            DiagCode::NonBoolCondition,
            DiagCode::InvalidOperands,
            DiagCode::MissingReturn,
            DiagCode::AssignToImmutable,
            DiagCode::BadMain,
            DiagCode::IfBranchMismatch,
            DiagCode::UnknownType,
            DiagCode::InvalidAssignTarget,
            DiagCode::BreakOutsideLoop,
            DiagCode::NotConstant,
            DiagCode::BadArrayType,
            DiagCode::NotIndexable,
            DiagCode::UnknownField,
            DiagCode::BadStructLiteral,
            DiagCode::NonExhaustiveMatch,
        ];
        assert forall|c: DiagCode| #[trigger] v@.contains(c) by {
            match c {
                DiagCode::UnexpectedChar => assert(v@[0] == c),
                DiagCode::UnterminatedString => assert(v@[1] == c),
                DiagCode::InvalidNumber => assert(v@[2] == c),
                DiagCode::UnterminatedComment => assert(v@[3] == c),
                DiagCode::InvalidEscape => assert(v@[4] == c),
                DiagCode::UnexpectedToken => assert(v@[5] == c),
                DiagCode::UnexpectedEof => assert(v@[6] == c),
                DiagCode::ExpectedType => assert(v@[7] == c),
                DiagCode::UnresolvedName => assert(v@[8] == c),
                DiagCode::DuplicateDefinition => assert(v@[9] == c),
                DiagCode::DuplicateParameter => assert(v@[10] == c),
                DiagCode::TypeMismatch => assert(v@[11] == c),
                DiagCode::ArityMismatch => assert(v@[12] == c),
                DiagCode::NotCallable => assert(v@[13] == c),
                DiagCode::ReturnTypeMismatch => assert(v@[14] == c),
                DiagCode::NonBoolCondition => assert(v@[15] == c),
                DiagCode::InvalidOperands => assert(v@[16] == c),
                DiagCode::MissingReturn => assert(v@[17] == c),
                DiagCode::AssignToImmutable => assert(v@[18] == c),
                DiagCode::BadMain => assert(v@[19] == c),
                DiagCode::IfBranchMismatch => assert(v@[20] == c),
                DiagCode::UnknownType => assert(v@[21] == c),
                DiagCode::InvalidAssignTarget => assert(v@[22] == c),
                DiagCode::BreakOutsideLoop => assert(v@[23] == c),
                DiagCode::NotConstant => assert(v@[24] == c),
                DiagCode::BadArrayType => assert(v@[25] == c),
                DiagCode::NotIndexable => assert(v@[26] == c),
                DiagCode::UnknownField => assert(v@[27] == c),
                DiagCode::BadStructLiteral => assert(v@[28] == c),
                DiagCode::NonExhaustiveMatch => assert(v@[29] == c),
            }
        }
        v
    }

    /// The canonical string form, e.g. `"E0301"`.
    pub fn as_str(self) -> (s: &'static str)
        ensures
            s@ == code_text(self),
    {
        match self {
            DiagCode::UnexpectedChar => {
                proof {
                    reveal_strlit("E0001");
                }
                "E0001"
            },
            DiagCode::UnterminatedString => {
                proof {
                    reveal_strlit("E0002");
                }
                "E0002"
            },
            DiagCode::InvalidNumber => {
                proof {
                    reveal_strlit("E0003");
                }
                "E0003"
            },
            DiagCode::UnterminatedComment => {
                proof {
                    reveal_strlit("E0004");
                }
                "E0004"
            },
            DiagCode::InvalidEscape => {
                proof {
                    reveal_strlit("E0005");
                }
                "E0005"
            },
            DiagCode::UnexpectedToken => {
                proof {
                    reveal_strlit("E0100");
                }
                "E0100"
            },
            DiagCode::UnexpectedEof => {
                proof {
                    reveal_strlit("E0101");
                }
                "E0101"
            },
            DiagCode::ExpectedType => {
                proof {
                    reveal_strlit("E0102");
                }
                "E0102"
            },
            DiagCode::UnresolvedName => {
                proof {
                    reveal_strlit("E0200");
                }
                "E0200"
            },
            DiagCode::DuplicateDefinition => {
                proof {
                    reveal_strlit("E0201");
                }
                "E0201"
            },
            DiagCode::DuplicateParameter => {
                proof {
                    reveal_strlit("E0202");
                }
                "E0202"
            },
            DiagCode::TypeMismatch => {
                proof {
                    reveal_strlit("E0300");
                }
                "E0300"
            },
            DiagCode::ArityMismatch => {
                proof {
                    reveal_strlit("E0301");
                }
                "E0301"
            },
            DiagCode::NotCallable => {
                proof {
                    reveal_strlit("E0302");
                }
                "E0302"
            },
            DiagCode::ReturnTypeMismatch => {
                proof {
                    reveal_strlit("E0303");
                }
                "E0303"
            },
            DiagCode::NonBoolCondition => {
                proof {
                    reveal_strlit("E0304");
                }
                "E0304"
            },
            DiagCode::InvalidOperands => {
                proof {
                    reveal_strlit("E0305");
                }
                "E0305"
            },
            DiagCode::MissingReturn => {
                proof {
                    reveal_strlit("E0306");
                }
                "E0306"
            },
            DiagCode::AssignToImmutable => {
                proof {
                    reveal_strlit("E0307");
                }
                "E0307"
            },
            DiagCode::BadMain => {
                proof {
                    reveal_strlit("E0308");
                }
                "E0308"
            },
            DiagCode::IfBranchMismatch => {
                proof {
                    reveal_strlit("E0309");
                }
                "E0309"
            },
            DiagCode::UnknownType => {
                proof {
                    reveal_strlit("E0310");
                }
                "E0310"
            },
            DiagCode::InvalidAssignTarget => {
                proof {
                    reveal_strlit("E0311");
                }
                "E0311"
            },
            DiagCode::BreakOutsideLoop => {
                proof {
                    reveal_strlit("E0312");
                }
                "E0312"
            },
            DiagCode::NotConstant => {
                proof {
                    reveal_strlit("E0313");
                }
                "E0313"
            },
            DiagCode::BadArrayType => {
                proof {
                    reveal_strlit("E0314");
                }
                "E0314"
            },
            DiagCode::NotIndexable => {
                proof {
                    reveal_strlit("E0315");
                }
                "E0315"
            },
            DiagCode::UnknownField => {
                proof {
                    reveal_strlit("E0316");
                }
                "E0316"
            },
            DiagCode::BadStructLiteral => {
                proof {
                    reveal_strlit("E0317");
                }
                "E0317"
            },
            DiagCode::NonExhaustiveMatch => {
                proof {
                    reveal_strlit("E0318");
                }
                "E0318"
            },
        }
    }
}

} // verus!
