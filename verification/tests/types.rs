use lumen::sema::types::{Builtin, Elem, Type};

#[test]
fn primitive_name_round_trip() {
    for ty in [Type::Int, Type::Float, Type::Bool, Type::Str, Type::Unit] {
        assert_eq!(Type::from_name(&ty.to_string()), Some(ty));
    }
    assert_eq!(Type::from_name("nope"), None);
}

#[test]
fn error_is_compatible_with_anything() {
    assert!(Type::Error.compatible(Type::Int));
    assert!(Type::Int.compatible(Type::Error));
    assert!(!Type::Int.compatible(Type::Bool));
}

#[test]
fn builtin_lookup() {
    assert_eq!(Builtin::from_name("print_int"), Some(Builtin::PrintInt));
    assert_eq!(Builtin::from_name("print_int").unwrap().params(), &[Type::Int]);
    assert_eq!(Builtin::from_name("nope"), None);
}

#[test]
fn type_display_forms() {
    assert_eq!(Type::Array(Elem::Str).to_string(), "[str]");
    assert_eq!(Type::Struct(12).to_string(), "struct#12");
    assert_eq!(Type::Tuple(0).to_string(), "tuple#0");
    assert_eq!(Type::Error.to_string(), "{error}");
}

#[test]
fn array_elements_are_primitive() {
    assert_eq!(Elem::of(Type::Int), Some(Elem::Int));
    assert_eq!(Elem::of(Type::Unit), None);
    assert_eq!(Elem::of(Type::Array(Elem::Int)), None);
    assert_eq!(Elem::Bool.ty(), Type::Bool);
    assert_eq!(Type::array_of(Elem::Float), Type::Array(Elem::Float));
    assert_eq!(Type::Array(Elem::Float).elem(), Some(Elem::Float));
    assert!(Type::Float.is_numeric() && !Type::Bool.is_numeric());
}

#[test]
fn every_builtin_is_found_by_its_name() {
    let all = Builtin::all();
    assert_eq!(all.len(), 39);
    for b in all {
        assert_eq!(Builtin::from_name(b.name()), Some(b));
    }
    assert!(Builtin::from_name("len").unwrap().is_generic());
    assert_eq!(Builtin::from_name("len").unwrap().ret(), Type::Int);
}
