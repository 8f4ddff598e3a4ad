use effers::intermediate_structs::{intermediate_structs, Bound, TypeExpr};
use effers::parse::{Args, Effect, EffectFunction, Path, SelfAccess};
use effers::rewrite::{CallRewrite, Receiver, Step};
use effers::parse::{check_identifier, MalformedDeclaration};
use effers::syntax::ParseError;
use effers::{final_impl, generate, program, rewrite_item_into_struct, Generated, Program};

fn path(segments: &[&str]) -> Path {
    Path { segments: segments.iter().map(|s| s.to_string()).collect() }
}

fn operation(ident: &str, alias: Option<&str>, mode: SelfAccess) -> EffectFunction {
    EffectFunction::new(ident.to_string(), alias.map(|a| a.to_string()), mode).unwrap()
}

fn strings(words: &[&str]) -> Vec<String> {
    words.iter().map(|w| w.to_string()).collect()
}

fn my_cool_program(name: Option<&str>) -> Args {
    Args::new(
        name.map(|n| n.to_string()),
        vec![
            Effect::new(
                path(&["Printer"]),
                vec![
                    operation("print", Some("p"), SelfAccess::ByRef),
                    operation("available", Some("printer_available"), SelfAccess::NoReceiver),
                ],
            )
            .unwrap(),
            Effect::new(
                path(&["Logger"]),
                vec![operation("debug", None, SelfAccess::ByMutRef), operation("info", None, SelfAccess::ByValue)],
            )
            .unwrap(),
        ],
    )
    .unwrap()
}

fn rewritten(generated: Generated) -> Program {
    match generated {
        Generated::Rewritten(program) => program,
        Generated::Unchanged => panic!("the function was left unchanged"),
    }
}

#[test]
fn without_effects_the_function_stays_as_it_is() {
    let args = Args::new(Some("Prog".to_string()), vec![]).unwrap();
    assert_eq!(program(args, "prog", &strings(&["add_three"])), Generated::Unchanged);
    let args = Args::new(None, vec![]).unwrap();
    assert_eq!(program(args, "prog", &vec![]), Generated::Unchanged);
}

#[test]
fn a_declared_name_names_the_program() {
    let generated = rewritten(program(my_cool_program(Some("MyCoolProgram")), "my_program", &vec![]));
    assert_eq!(generated.root, "MyCoolProgram");
    assert_eq!(generated.layers[0].id, "MyCoolProgramWithPrinter");
    assert_eq!(generated.layers[1].id, "MyCoolProgramWithPrinterLogger");
}

#[test]
fn an_unnamed_program_is_named_after_the_function() {
    let generated = rewritten(program(my_cool_program(None), "other_program", &vec![]));
    assert_eq!(generated.root, "OtherProgram");
    assert_eq!(generated.layers[1].id, "OtherProgramWithPrinterLogger");

    let generated = rewritten(program(my_cool_program(None), "prog", &vec![]));
    assert_eq!(generated.root, "Prog");

    let generated = rewritten(program(my_cool_program(None), "smth", &vec![]));
    assert_eq!(generated.layers[0].tokens.previous.name, "Smth");
}

#[test]
fn the_whole_program_is_generated() {
    let callees = strings(&["printer_available", "p", "debug", "info"]);
    let generated = rewritten(program(my_cool_program(Some("MyCoolProgram")), "my_program", &callees));

    assert_eq!(generated.root, "MyCoolProgram");
    assert_eq!(generated.layers.len(), 2);
    assert_eq!(generated.impls.len(), 2);
    assert_eq!(generated.impls[0].target.name, "MyCoolProgram");
    assert_eq!(generated.impls[1].returns.name, "MyCoolProgramWithPrinterLogger");

    let last = &generated.final_impl;
    assert_eq!(
        last.generics,
        vec![
            Bound { letter: "A".to_string(), bound: path(&["Printer"]) },
            Bound { letter: "B".to_string(), bound: path(&["Logger"]) },
        ]
    );
    assert_eq!(
        last.target,
        TypeExpr { name: "MyCoolProgramWithPrinterLogger".to_string(), arguments: strings(&["A", "B"]) }
    );
    assert_eq!(last.run.name, "run");
    assert_eq!(
        last.run.calls,
        vec![
            Some(CallRewrite {
                slot: "A".to_string(),
                path: path(&["Printer", "available"]),
                position: 1,
                receiver: None,
            }),
            Some(CallRewrite {
                slot: "A".to_string(),
                path: path(&["Printer", "print"]),
                position: 1,
                receiver: Some(Receiver {
                    mode: SelfAccess::ByRef,
                    steps: vec![Step::Previous, Step::Handler],
                }),
            }),
            Some(CallRewrite {
                slot: "B".to_string(),
                path: path(&["Logger", "debug"]),
                position: 1,
                receiver: Some(Receiver { mode: SelfAccess::ByMutRef, steps: vec![Step::Handler] }),
            }),
            Some(CallRewrite {
                slot: "B".to_string(),
                path: path(&["Logger", "info"]),
                position: 1,
                receiver: Some(Receiver { mode: SelfAccess::ByValue, steps: vec![Step::Handler] }),
            }),
        ]
    );
}

#[test]
fn generating_twice_gives_the_same() {
    let callees = strings(&["p", "println", "info", "p"]);
    let first = program(my_cool_program(None), "my_program", &callees);
    let second = program(my_cool_program(None), "my_program", &callees);
    assert_eq!(first, second);
    let first = rewritten(first);
    assert_eq!(first.root, "MyProgram");
    assert_eq!(first.layers.len(), 2);
    assert_eq!(first.final_impl.run.calls[1], None);
}

#[test]
fn a_named_program_is_assembled_from_its_parts() {
    let callees = strings(&["debug"]);
    let generated = rewrite_item_into_struct(&callees, my_cool_program(Some("Smth")));
    let args = my_cool_program(Some("Smth"));
    let layers = intermediate_structs(&args, "Smth");
    assert_eq!(generated.layers, layers);
    assert_eq!(generated.impls, effers::builder::impls("Smth", &layers));
    assert_eq!(generated.final_impl, final_impl(&layers[1], &callees, &args));
    assert_eq!(generated.root, "Smth");
}

#[test]
fn run_sits_on_the_layer_it_is_given() {
    let args = my_cool_program(Some("Smth"));
    let layers = intermediate_structs(&args, "Smth");
    let block = final_impl(&layers[0], &strings(&["info"]), &args);
    assert_eq!(block.target, TypeExpr { name: "SmthWithPrinter".to_string(), arguments: strings(&["A"]) });
    assert_eq!(block.generics, layers[0].generics);
    assert_eq!(block.run.calls.len(), 1);
    assert_eq!(block.run.calls[0].as_ref().unwrap().slot, "B");
}

#[test]
fn a_written_declaration_is_generated_from() {
    let written = "MyCoolProgram =>
        Printer(print(&self) as p, available as printer_available),
        Logger(debug(&mut self), info(self))";
    let callees = strings(&["printer_available", "p", "debug", "info"]);
    let from_text = generate(written, "my_program", &callees);
    let from_values = program(my_cool_program(Some("MyCoolProgram")), "my_program", &callees);
    assert_eq!(from_text, Ok(from_values));
    assert_eq!(generate(written, "my_program", &callees), from_text);
}

#[test]
fn a_written_declaration_without_effects_changes_nothing() {
    assert_eq!(generate("", "prog", &strings(&["print"])), Ok(Generated::Unchanged));
    assert_eq!(generate("Prog =>", "prog", &vec![]), Ok(Generated::Unchanged));
}

#[test]
fn a_declaration_that_cannot_be_read_generates_nothing() {
    let refused = Err(ParseError { reason: MalformedDeclaration::UnexpectedToken, at: 3 });
    assert_eq!(generate("Printer(print", "prog", &vec![]), refused);
    assert_eq!(generate("Printer(print", "prog", &vec![]), refused);
    assert_eq!(
        generate("Printer(print) # ", "prog", &vec![]),
        Err(ParseError { reason: MalformedDeclaration::UnexpectedCharacter, at: 15 })
    );
}

#[test]
fn generated_names_are_identifiers() {
    let generated = rewritten(generate("a::First(f), Second(g), b::c::Third(h)", "some_fn", &vec![]).unwrap());
    assert!(check_identifier(&generated.root));
    for layer in &generated.layers {
        assert!(check_identifier(&layer.id));
        for letter in &layer.letters {
            assert!(check_identifier(letter));
        }
    }
}

#[test]
fn run_is_offered_by_the_last_layer_only() {
    let generated = rewritten(generate("P => First(f), Second(g), Third(h)", "p", &vec![]).unwrap());
    let target = &generated.final_impl.target;
    assert_eq!(target, &generated.impls[2].returns);
    for add in &generated.impls {
        assert_ne!(&add.target, target);
    }
}
