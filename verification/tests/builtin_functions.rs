use candy_frontend::builtin_functions::{values, BuiltinFunction};

#[test]
fn builtin_function_purity() {
    assert!(BuiltinFunction::Equals.is_pure());
    assert!(BuiltinFunction::IntAdd.is_pure());
    assert!(!BuiltinFunction::FunctionRun.is_pure());
    assert!(!BuiltinFunction::IfElse.is_pure());
    assert!(!BuiltinFunction::Print.is_pure());
}

#[test]
fn builtin_function_parameter_counts() {
    assert_eq!(BuiltinFunction::Equals.num_parameters(), 2);
    assert_eq!(BuiltinFunction::IfElse.num_parameters(), 3);
    assert_eq!(BuiltinFunction::Print.num_parameters(), 1);
    assert_eq!(BuiltinFunction::ListReplace.num_parameters(), 3);
    assert_eq!(BuiltinFunction::TextGetRange.num_parameters(), 3);
}

#[test]
fn builtin_function_names_are_snake_case() {
    assert_eq!(BuiltinFunction::Equals.as_str(), "equals");
    assert_eq!(BuiltinFunction::IntDivideTruncating.as_str(), "int_divide_truncating");
    assert_eq!(BuiltinFunction::ToDebugText.as_str(), "to_debug_text");
}

#[test]
fn builtin_functions_are_all_listed_once() {
    let all = values();
    assert_eq!(all.len(), 45);
    assert_eq!(all[0], BuiltinFunction::Equals);
    for (i, a) in all.iter().enumerate() {
        for b in &all[i + 1..] {
            assert_ne!(a, b);
        }
    }
}
