use effers::builder::impls;
use effers::intermediate_structs::{
    intermediate_structs, Bound, IntermediateStruct, StructDef, TypeExpr,
};
use effers::parse::{Args, Effect, EffectFunction, Path, SelfAccess};

fn path(segments: &[&str]) -> Path {
    Path { segments: segments.iter().map(|s| s.to_string()).collect() }
}

fn effect(segments: &[&str]) -> Effect {
    Effect::new(
        path(segments),
        vec![EffectFunction::new("run_it".to_string(), None, SelfAccess::ByRef).unwrap()],
    )
    .unwrap()
}

fn declaration(effects: &[&[&str]]) -> Args {
    Args::new(Some("Prog".to_string()), effects.iter().map(|e| effect(e)).collect()).unwrap()
}

fn strings(words: &[&str]) -> Vec<String> {
    words.iter().map(|w| w.to_string()).collect()
}

fn bound(letter: &str, segments: &[&str]) -> Bound {
    Bound { letter: letter.to_string(), bound: path(segments) }
}

fn ty(name: &str, arguments: &[&str]) -> TypeExpr {
    TypeExpr { name: name.to_string(), arguments: strings(arguments) }
}

#[test]
fn there_is_one_layer_per_effect() {
    for n in 0..40usize {
        let names: Vec<String> = (0..n).map(|k| format!("E{}", k)).collect();
        let effects: Vec<Effect> = names.iter().map(|name| effect(&[name.as_str()])).collect();
        let args = Args::new(None, effects).unwrap();
        let layers = intermediate_structs(&args, "Prog");
        assert_eq!(layers.len(), n);
        for (i, layer) in layers.iter().enumerate() {
            assert_eq!(layer.generics.len(), i + 1);
            assert_eq!(layer.letters.len(), i + 1);
            assert_eq!(layer.traits.len(), i + 1);
            assert_eq!(layer.tokens.generics.len(), i + 1);
        }
    }
}

#[test]
fn no_effect_gives_no_layer() {
    let args = declaration(&[]);
    assert!(intermediate_structs(&args, "Prog").is_empty());
    assert!(impls("Prog", &vec![]).is_empty());
}

#[test]
fn the_first_layer_wraps_the_bare_program() {
    let args = declaration(&[&["Printer"]]);
    let layers = intermediate_structs(&args, "Prog");
    assert_eq!(
        layers,
        vec![IntermediateStruct {
            tokens: StructDef {
                name: "ProgWithPrinter".to_string(),
                generics: vec![bound("A", &["Printer"])],
                previous: ty("Prog", &[]),
                handler: "A".to_string(),
            },
            id: "ProgWithPrinter".to_string(),
            traits: vec![path(&["Printer"])],
            letters: strings(&["A"]),
            generics: vec![bound("A", &["Printer"])],
        }]
    );
}

#[test]
fn each_layer_wraps_the_one_before_it() {
    let args = declaration(&[&["Printer"], &["Logger"], &["inc", "Incrementer"]]);
    let layers = intermediate_structs(&args, "Smth");
    assert_eq!(layers.len(), 3);

    assert_eq!(layers[0].id, "SmthWithPrinter");
    assert_eq!(layers[1].id, "SmthWithPrinterLogger");
    assert_eq!(layers[2].id, "SmthWithPrinterLoggerIncrementer");

    assert_eq!(layers[0].tokens.previous, ty("Smth", &[]));
    assert_eq!(layers[1].tokens.previous, ty("SmthWithPrinter", &["A"]));
    assert_eq!(layers[2].tokens.previous, ty("SmthWithPrinterLogger", &["A", "B"]));

    assert_eq!(layers[0].tokens.handler, "A");
    assert_eq!(layers[1].tokens.handler, "B");
    assert_eq!(layers[2].tokens.handler, "C");

    assert_eq!(layers[2].letters, strings(&["A", "B", "C"]));
    assert_eq!(layers[2].traits, vec![path(&["Printer"]), path(&["Logger"]), path(&["inc", "Incrementer"])]);
    assert_eq!(
        layers[2].generics,
        vec![bound("A", &["Printer"]), bound("B", &["Logger"]), bound("C", &["inc", "Incrementer"])]
    );
    for layer in &layers {
        assert_eq!(layer.tokens.name, layer.id);
        assert_eq!(layer.tokens.generics, layer.generics);
    }
}

#[test]
fn effects_of_one_name_give_layers_of_different_names() {
    let args = declaration(&[&["a", "State"], &["b", "State"], &["State"]]);
    let layers = intermediate_structs(&args, "Prog");
    assert_eq!(layers[0].id, "ProgWithState");
    assert_eq!(layers[1].id, "ProgWithStateState");
    assert_eq!(layers[2].id, "ProgWithStateStateState");
}

#[test]
fn many_effects_get_repeated_letters() {
    let names: Vec<String> = (0..28).map(|k| format!("E{}", k)).collect();
    let effects: Vec<Effect> = names.iter().map(|name| effect(&[name.as_str()])).collect();
    let args = Args::new(None, effects).unwrap();
    let layers = intermediate_structs(&args, "P");
    assert_eq!(layers[27].tokens.handler, "BB");
    assert_eq!(layers[27].letters[26], "AA");
    assert_eq!(layers[27].generics[25], bound("Z", &["E25"]));
}

#[test]
fn attachment_follows_declaration() {
    let args = declaration(&[&["E1"], &["E2"]]);
    let layers = intermediate_structs(&args, "Root");
    let adds = impls("Root", &layers);
    assert_eq!(adds.len(), 2);

    // Root.add(h1: E1) -> RootWithE1<A,>
    assert_eq!(adds[0].name, "add");
    assert_eq!(adds[1].name, "add");
    assert!(adds[0].generics.is_empty());
    assert_eq!(adds[0].target, ty("Root", &[]));
    assert_eq!(adds[0].handler, bound("A", &["E1"]));
    assert_eq!(adds[0].returns, ty("RootWithE1", &["A"]));
    assert_eq!(adds[0].constructor, "RootWithE1");

    // RootWithE1<A,>.add(h2: E2) -> RootWithE1E2<A, B,>
    assert_eq!(adds[1].generics, vec![bound("A", &["E1"])]);
    assert_eq!(adds[1].target, ty("RootWithE1", &["A"]));
    assert_eq!(adds[1].handler, bound("B", &["E2"]));
    assert_eq!(adds[1].returns, ty("RootWithE1E2", &["A", "B"]));
    assert_eq!(adds[1].constructor, "RootWithE1E2");

    // The bare program offers no `add` that takes a handler of E2.
    assert_ne!(adds[0].handler.bound, path(&["E2"]));
    assert_eq!(adds[1].target, adds[0].returns);
}

#[test]
fn every_add_starts_where_the_one_before_it_ended() {
    let args = declaration(&[&["A1"], &["x", "A2"], &["A3"], &["A4"]]);
    let layers = intermediate_structs(&args, "Prog");
    let adds = impls("Prog", &layers);
    assert_eq!(adds.len(), layers.len());
    for i in 0..adds.len() {
        assert_eq!(adds[i].handler.bound, args.effects[i].path);
        assert_eq!(adds[i].constructor, layers[i].id);
        assert_eq!(adds[i].returns.name, layers[i].id);
        assert_eq!(adds[i].returns.arguments, layers[i].letters);
        if i > 0 {
            assert_eq!(adds[i].target, adds[i - 1].returns);
            assert_eq!(adds[i].generics, layers[i - 1].generics);
        }
    }
}

#[test]
fn a_layer_is_made_of_its_parts() {
    let layer = IntermediateStruct::new(
        StructDef {
            name: "XWithY".to_string(),
            generics: vec![bound("A", &["Y"])],
            previous: ty("X", &[]),
            handler: "A".to_string(),
        },
        "XWithY".to_string(),
        vec![path(&["Y"])],
        strings(&["A"]),
        vec![bound("A", &["Y"])],
    );
    assert_eq!(layer.id, "XWithY");
    assert_eq!(layer.tokens.previous, ty("X", &[]));
    assert_eq!(layer.traits, vec![path(&["Y"])]);
    assert_eq!(layer.letters, strings(&["A"]));
    assert_eq!(layer.generics, vec![bound("A", &["Y"])]);
    assert_eq!(layer.generics[0].clone(), bound("A", &["Y"]));
    assert_eq!(layer.tokens.previous.clone(), ty("X", &[]));
}
