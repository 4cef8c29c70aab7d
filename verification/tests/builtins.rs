use lumen::backend::builtins::{eval, gcd, is_float_builtin, Scalar};
use lumen::backend::vm::{checked_div, checked_rem, index_in_bounds, VmError};
use lumen::sema::types::Builtin;

fn call(b: Builtin, args: Vec<Scalar>) -> (Result<Scalar, VmError>, String) {
    let mut out = String::new();
    let r = eval(b, &args, &mut out);
    (r, out)
}

fn s(t: &str) -> Scalar {
    Scalar::Str(t.to_string())
}

#[test]
fn integer_division_errors() {
    assert_eq!(checked_div(7, 2), Ok(3));
    assert_eq!(checked_div(-7, 2), Ok(-3));
    assert_eq!(checked_div(1, 0), Err(VmError::DivisionByZero));
    assert_eq!(checked_div(i64::MIN, -1), Err(VmError::IntegerOverflow));
    assert_eq!(checked_rem(-7, 2), Ok(-1));
    assert_eq!(checked_rem(5, 0), Err(VmError::DivisionByZero));
    assert_eq!(checked_rem(i64::MIN, -1), Err(VmError::IntegerOverflow));
}

#[test]
fn index_bounds() {
    assert_eq!(index_in_bounds(0, 3), Some(0));
    assert_eq!(index_in_bounds(2, 3), Some(2));
    assert_eq!(index_in_bounds(3, 3), None);
    assert_eq!(index_in_bounds(-1, 3), None);
}

#[test]
fn print_family_appends_lines() {
    let (r, out) = call(Builtin::PrintInt, vec![Scalar::Int(-42)]);
    assert_eq!(r, Ok(Scalar::Unit));
    assert_eq!(out, "-42\n");
    assert_eq!(call(Builtin::PrintBool, vec![Scalar::Bool(true)]).1, "true\n");
    assert_eq!(call(Builtin::PrintStr, vec![s("hi")]).1, "hi\n");
}

#[test]
fn integer_math() {
    assert_eq!(call(Builtin::AbsInt, vec![Scalar::Int(-5)]).0, Ok(Scalar::Int(5)));
    assert_eq!(call(Builtin::AbsInt, vec![Scalar::Int(i64::MIN)]).0, Ok(Scalar::Int(i64::MIN)));
    assert_eq!(call(Builtin::MinInt, vec![Scalar::Int(3), Scalar::Int(-2)]).0, Ok(Scalar::Int(-2)));
    assert_eq!(call(Builtin::MaxInt, vec![Scalar::Int(3), Scalar::Int(-2)]).0, Ok(Scalar::Int(3)));
    assert_eq!(call(Builtin::PowInt, vec![Scalar::Int(2), Scalar::Int(10)]).0, Ok(Scalar::Int(1024)));
    assert_eq!(
        call(Builtin::PowInt, vec![Scalar::Int(2), Scalar::Int(-1)]).0,
        Err(VmError::Internal("negative exponent"))
    );
    assert_eq!(call(Builtin::PowInt, vec![Scalar::Int(2), Scalar::Int(64)]).0, Ok(Scalar::Int(0)));
    assert_eq!(call(Builtin::Gcd, vec![Scalar::Int(-12), Scalar::Int(18)]).0, Ok(Scalar::Int(6)));
    assert_eq!(call(Builtin::Lcm, vec![Scalar::Int(4), Scalar::Int(-6)]).0, Ok(Scalar::Int(12)));
    assert_eq!(call(Builtin::Lcm, vec![Scalar::Int(0), Scalar::Int(5)]).0, Ok(Scalar::Int(0)));
    assert_eq!(call(Builtin::SignInt, vec![Scalar::Int(-9)]).0, Ok(Scalar::Int(-1)));
    assert_eq!(
        call(Builtin::ClampInt, vec![Scalar::Int(15), Scalar::Int(0), Scalar::Int(10)]).0,
        Ok(Scalar::Int(10))
    );
    assert_eq!(
        call(Builtin::ClampInt, vec![Scalar::Int(5), Scalar::Int(9), Scalar::Int(1)]).0,
        Ok(Scalar::Int(9))
    );
    assert_eq!(gcd(0, 0), 0);
    assert_eq!(gcd(i64::MIN, 0), i64::MIN);
}

#[test]
fn string_builtins() {
    assert_eq!(call(Builtin::StrLen, vec![s("héllo")]).0, Ok(Scalar::Int(6)));
    assert_eq!(call(Builtin::IntToStr, vec![Scalar::Int(-7)]).0, Ok(s("-7")));
    assert_eq!(call(Builtin::BoolToStr, vec![Scalar::Bool(false)]).0, Ok(s("false")));
    assert_eq!(
        call(Builtin::Substring, vec![s("hello"), Scalar::Int(1), Scalar::Int(99)]).0,
        Ok(s("ello"))
    );
    assert_eq!(
        call(Builtin::Substring, vec![s("héllo"), Scalar::Int(1), Scalar::Int(2)]).0,
        Ok(s(""))
    );
    assert_eq!(call(Builtin::CharAt, vec![s("abc"), Scalar::Int(1)]).0, Ok(Scalar::Int(98)));
    assert_eq!(
        call(Builtin::CharAt, vec![s("abc"), Scalar::Int(3)]).0,
        Err(VmError::IndexOutOfBounds { index: 3, len: 3 })
    );
    assert_eq!(call(Builtin::StrRepeat, vec![s("ab"), Scalar::Int(3)]).0, Ok(s("ababab")));
    assert_eq!(call(Builtin::StrRepeat, vec![s("ab"), Scalar::Int(-3)]).0, Ok(s("")));
    assert_eq!(call(Builtin::StartsWith, vec![s("hello"), s("he")]).0, Ok(Scalar::Bool(true)));
    assert_eq!(call(Builtin::EndsWith, vec![s("hello"), s("lo")]).0, Ok(Scalar::Bool(true)));
    assert_eq!(call(Builtin::EndsWith, vec![s("lo"), s("hello")]).0, Ok(Scalar::Bool(false)));
    assert_eq!(call(Builtin::Contains, vec![s("hello"), s("ll")]).0, Ok(Scalar::Bool(true)));
    assert_eq!(call(Builtin::IndexOf, vec![s("hello"), s("l")]).0, Ok(Scalar::Int(2)));
    assert_eq!(call(Builtin::IndexOf, vec![s("hello"), s("z")]).0, Ok(Scalar::Int(-1)));
    assert_eq!(call(Builtin::ParseInt, vec![s("  42 ")]).0, Ok(Scalar::Int(42)));
    assert_eq!(call(Builtin::ParseInt, vec![s("4x")]).0, Ok(Scalar::Int(0)));
    assert_eq!(call(Builtin::ToUpper, vec![s("aBc-é")]).0, Ok(s("ABC-é")));
    assert_eq!(call(Builtin::ToLower, vec![s("aBc")]).0, Ok(s("abc")));
    assert_eq!(call(Builtin::Trim, vec![s("  x y  ")]).0, Ok(s("x y")));
    assert_eq!(call(Builtin::CharToStr, vec![Scalar::Int(65)]).0, Ok(s("A")));
    assert_eq!(call(Builtin::CharToStr, vec![Scalar::Int(300)]).0, Ok(s("")));
}

#[test]
fn wrong_arguments_are_internal_errors() {
    let (r, out) = call(Builtin::PrintInt, vec![Scalar::Bool(true)]);
    assert_eq!(r, Err(VmError::Internal("builtin called with wrong argument")));
    assert_eq!(out, "");
    assert!(is_float_builtin(Builtin::Sqrt));
    assert!(!is_float_builtin(Builtin::Gcd));
}
