use effers::parse::{
    check_identifier, Args, Effect, EffectFunction, MalformedDeclaration, Path, SelfAccess,
};

fn path(segments: &[&str]) -> Path {
    Path { segments: segments.iter().map(|s| s.to_string()).collect() }
}

fn operation(ident: &str, alias: Option<&str>, mode: SelfAccess) -> EffectFunction {
    EffectFunction { ident: ident.to_string(), alias: alias.map(|a| a.to_string()), self_reference: mode }
}

#[test]
fn identifiers_are_recognised() {
    assert!(check_identifier("print"));
    assert!(check_identifier("_"));
    assert!(check_identifier("_x9"));
    assert!(check_identifier("Printer2"));
    assert!(check_identifier("gr\u{f6}\u{df}e"));
    assert!(!check_identifier(""));
    assert!(!check_identifier("9lives"));
    assert!(!check_identifier("two words"));
    assert!(!check_identifier("a-b"));
    assert!(!check_identifier("a::b"));
    assert!(!check_identifier("p("));
}

#[test]
fn an_operation_keeps_what_it_was_declared_with() {
    let op = EffectFunction::new("print".to_string(), Some("p".to_string()), SelfAccess::ByRef).unwrap();
    assert_eq!(op.ident, "print");
    assert_eq!(op.alias, Some("p".to_string()));
    assert_eq!(op.self_reference, SelfAccess::ByRef);
    assert_eq!(op.check(), Ok(()));
}

#[test]
fn an_operation_needs_an_identifier_for_a_name() {
    let out = EffectFunction::new("".to_string(), None, SelfAccess::NoReceiver);
    assert_eq!(out, Err(MalformedDeclaration::InvalidOperation));
    let out = EffectFunction::new("1st".to_string(), Some("bad alias".to_string()), SelfAccess::NoReceiver);
    assert_eq!(out, Err(MalformedDeclaration::InvalidOperation));
}

#[test]
fn an_alias_must_be_an_identifier() {
    let out = EffectFunction::new("print".to_string(), Some("p q".to_string()), SelfAccess::ByRef);
    assert_eq!(out, Err(MalformedDeclaration::InvalidAlias));
    let out = EffectFunction::new("print".to_string(), Some("".to_string()), SelfAccess::ByRef);
    assert_eq!(out, Err(MalformedDeclaration::InvalidAlias));
}

#[test]
fn an_effect_is_named_after_its_last_segment() {
    let effect = Effect::new(path(&["inc", "Incrementer"]), vec![operation("increment", None, SelfAccess::ByMutRef)]).unwrap();
    assert_eq!(effect.name, "Incrementer");
    assert_eq!(effect.path, path(&["inc", "Incrementer"]));
    assert_eq!(effect.functions.len(), 1);
    assert_eq!(effect.check(), Ok(()));
}

#[test]
fn an_effect_without_segments_is_refused() {
    let out = Effect::new(path(&[]), vec![]);
    assert_eq!(out, Err(MalformedDeclaration::EmptyPath));
    let out = Effect::new(path(&[]), vec![operation("", None, SelfAccess::NoReceiver)]);
    assert_eq!(out, Err(MalformedDeclaration::EmptyPath));
    assert_eq!(path(&[]).default_name(), None);
}

#[test]
fn an_effect_with_a_bad_segment_is_refused() {
    let out = Effect::new(path(&["inc", "In crementer"]), vec![]);
    assert_eq!(out, Err(MalformedDeclaration::InvalidSegment));
    let out = Effect::new(path(&["", "Incrementer"]), vec![operation("", None, SelfAccess::NoReceiver)]);
    assert_eq!(out, Err(MalformedDeclaration::InvalidSegment));
}

#[test]
fn an_effect_reports_its_first_ill_formed_operation() {
    let out = Effect::new(
        path(&["Logger"]),
        vec![
            operation("debug", None, SelfAccess::ByMutRef),
            operation("info", Some("2"), SelfAccess::ByValue),
            operation("", None, SelfAccess::ByValue),
        ],
    );
    assert_eq!(out, Err(MalformedDeclaration::InvalidAlias));
    let out = Effect::new(
        path(&["Logger"]),
        vec![operation("", None, SelfAccess::ByValue), operation("info", Some("2"), SelfAccess::ByValue)],
    );
    assert_eq!(out, Err(MalformedDeclaration::InvalidOperation));
}

#[test]
fn an_effect_with_a_bad_name_is_refused() {
    let effect = Effect { name: "not a name".to_string(), path: path(&["Logger"]), functions: vec![] };
    assert_eq!(effect.check(), Err(MalformedDeclaration::InvalidName));
}

#[test]
fn the_default_name_is_the_last_segment() {
    assert_eq!(path(&["Printer"]).default_name(), Some("Printer".to_string()));
    assert_eq!(path(&["a", "b", "C"]).default_name(), Some("C".to_string()));
}

#[test]
fn a_declaration_needs_an_identifier_for_a_name() {
    let out = Args::new(Some("My Program".to_string()), vec![]);
    assert_eq!(out, Err(MalformedDeclaration::InvalidName));
    let args = Args::new(Some("MyProgram".to_string()), vec![]).unwrap();
    assert_eq!(args.name, Some("MyProgram".to_string()));
    let args = Args::new(None, vec![]).unwrap();
    assert_eq!(args.name, None);
    assert_eq!(args.check(), Ok(()));
}

#[test]
fn a_declaration_reports_its_first_ill_formed_effect() {
    let good = Effect::new(path(&["Printer"]), vec![]).unwrap();
    let no_path = Effect { name: "Logger".to_string(), path: path(&[]), functions: vec![] };
    let bad_operation = Effect {
        name: "State".to_string(),
        path: path(&["State"]),
        functions: vec![operation("get it", None, SelfAccess::ByRef)],
    };
    let out = Args::new(None, vec![good, no_path, bad_operation]);
    assert_eq!(out, Err(MalformedDeclaration::EmptyPath));

    let bad_operation = Effect {
        name: "State".to_string(),
        path: path(&["State"]),
        functions: vec![operation("get it", None, SelfAccess::ByRef)],
    };
    let out = Args::new(Some("9".to_string()), vec![bad_operation]);
    assert_eq!(out, Err(MalformedDeclaration::InvalidName));
}

#[test]
fn an_operation_is_found_by_the_name_that_calls_use() {
    let effect = Effect::new(
        path(&["Printer"]),
        vec![
            operation("print", Some("p"), SelfAccess::ByRef),
            operation("available", Some("printer_available"), SelfAccess::NoReceiver),
            operation("flush", None, SelfAccess::ByMutRef),
        ],
    )
    .unwrap();
    assert_eq!(effect.find("p"), Some(0));
    assert_eq!(effect.find("printer_available"), Some(1));
    assert_eq!(effect.find("flush"), Some(2));
    assert_eq!(effect.find("print"), None);
    assert_eq!(effect.find("available"), None);
    assert_eq!(effect.find("missing"), None);
}

#[test]
fn of_two_operations_called_alike_the_first_is_found() {
    let effect = Effect::new(
        path(&["State"]),
        vec![operation("get", Some("x"), SelfAccess::ByRef), operation("x", None, SelfAccess::ByMutRef)],
    )
    .unwrap();
    assert_eq!(effect.find("x"), Some(0));
}
