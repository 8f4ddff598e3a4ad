use effers::parse::{Args, Effect, EffectFunction, MalformedDeclaration, Path, SelfAccess};
use effers::syntax::{tokenize, ParseError, Token};

fn path(segments: &[&str]) -> Path {
    Path { segments: segments.iter().map(|s| s.to_string()).collect() }
}

fn operation(ident: &str, alias: Option<&str>, mode: SelfAccess) -> EffectFunction {
    EffectFunction::new(ident.to_string(), alias.map(|a| a.to_string()), mode).unwrap()
}

fn word(text: &str) -> Token {
    Token::Word(text.to_string())
}

fn refused(text: &str) -> ParseError {
    Args::parse(text).unwrap_err()
}

fn at(reason: MalformedDeclaration, at: usize) -> ParseError {
    ParseError { reason, at }
}

#[test]
fn a_text_is_split_into_tokens() {
    assert_eq!(
        tokenize("Smth => inc::Incrementer(increment(&mut self) as i,)"),
        Ok(vec![
            word("Smth"),
            Token::FatArrow,
            word("inc"),
            Token::PathSep,
            word("Incrementer"),
            Token::Open,
            word("increment"),
            Token::Open,
            Token::Amp,
            word("mut"),
            word("self"),
            Token::Close,
            word("as"),
            word("i"),
            Token::Comma,
            Token::Close,
        ])
    );
}

#[test]
fn spaces_separate_words_and_nothing_else() {
    assert_eq!(tokenize(""), Ok(vec![]));
    assert_eq!(tokenize(" \t\r\n"), Ok(vec![]));
    assert_eq!(tokenize("ab cd"), Ok(vec![word("ab"), word("cd")]));
    assert_eq!(tokenize("ab\ncd "), Ok(vec![word("ab"), word("cd")]));
    assert_eq!(tokenize("a,b"), Ok(vec![word("a"), Token::Comma, word("b")]));
    assert_eq!(tokenize("a::b"), Ok(vec![word("a"), Token::PathSep, word("b")]));
    assert_eq!(tokenize("&mut"), Ok(vec![Token::Amp, word("mut")]));
    assert_eq!(tokenize("x=>"), Ok(vec![word("x"), Token::FatArrow]));
    assert_eq!(tokenize("9x _y"), Ok(vec![word("9x"), word("_y")]));
    assert_eq!(tokenize("gr\u{f6}\u{df}e()"), Ok(vec![word("gr\u{f6}\u{df}e"), Token::Open, Token::Close]));
}

#[test]
fn a_character_of_no_token_is_refused_where_it_stands() {
    let unexpected = |n: usize| Err(at(MalformedDeclaration::UnexpectedCharacter, n));
    assert_eq!(tokenize("a; b"), unexpected(1));
    assert_eq!(tokenize("ab = c"), unexpected(3));
    assert_eq!(tokenize("ab ="), unexpected(3));
    assert_eq!(tokenize("a:b"), unexpected(1));
    assert_eq!(tokenize("a: :b"), unexpected(1));
    assert_eq!(tokenize("P(f) -> x"), unexpected(5));
    assert_eq!(tokenize("State<u32>(get)"), unexpected(5));
    assert_eq!(tokenize("\u{e9}t\u{e9}!"), unexpected(3));
}

#[test]
fn a_whole_declaration_is_read() {
    let args = Args::parse(
        "MyCoolProgram =>
            Printer(print(&self) as p, available as printer_available),
            Logger(debug(&mut self), info(self))",
    )
    .unwrap();
    let expected = Args::new(
        Some("MyCoolProgram".to_string()),
        vec![
            Effect::new(
                path(&["Printer"]),
                vec![
                    operation("print", Some("p"), SelfAccess::ByRef),
                    operation("available", Some("printer_available"), SelfAccess::NoReceiver),
                ],
            )
            .unwrap(),
            Effect::new(
                path(&["Logger"]),
                vec![operation("debug", None, SelfAccess::ByMutRef), operation("info", None, SelfAccess::ByValue)],
            )
            .unwrap(),
        ],
    )
    .unwrap();
    assert_eq!(args, expected);
    assert_eq!(args.check(), Ok(()));
}

#[test]
fn the_name_is_optional() {
    let args = Args::parse("Printer(print(&self) as p)").unwrap();
    assert_eq!(args.name, None);
    assert_eq!(args.effects.len(), 1);
    assert_eq!(args.effects[0].name, "Printer");
    assert_eq!(args.effects[0].functions, vec![operation("print", Some("p"), SelfAccess::ByRef)]);
}

#[test]
fn an_interface_may_lie_in_a_module() {
    let args = Args::parse("inc::Incrementer(increment(&self))").unwrap();
    assert_eq!(args.effects[0].path, path(&["inc", "Incrementer"]));
    assert_eq!(args.effects[0].name, "Incrementer");
    let args = Args::parse("a :: b :: C ()").unwrap();
    assert_eq!(args.effects[0].path, path(&["a", "b", "C"]));
    assert_eq!(args.effects[0].name, "C");
    assert!(args.effects[0].functions.is_empty());
}

#[test]
fn no_effect_is_a_declaration_too() {
    assert_eq!(Args::parse(""), Ok(Args { name: None, effects: vec![] }));
    assert_eq!(Args::parse("  "), Ok(Args { name: None, effects: vec![] }));
    assert_eq!(Args::parse("Prog =>"), Ok(Args { name: Some("Prog".to_string()), effects: vec![] }));
}

#[test]
fn lists_may_end_with_a_comma() {
    let plain = Args::parse("P => A(f, g), B(h)").unwrap();
    assert_eq!(Args::parse("P => A(f, g,), B(h,),").unwrap(), plain);
    assert_eq!(Args::parse("P=>A(f,g),B(h)").unwrap(), plain);
    assert_eq!(plain.effects.len(), 2);
    assert_eq!(plain.effects[0].functions.len(), 2);
}

#[test]
fn every_access_mode_can_be_written() {
    let args = Args::parse("S(a, b(), c(self), d(&self), e(&mut self), f( & mut  self ) as g)").unwrap();
    let modes: Vec<SelfAccess> = args.effects[0].functions.iter().map(|f| f.self_reference).collect();
    assert_eq!(
        modes,
        vec![
            SelfAccess::NoReceiver,
            SelfAccess::NoReceiver,
            SelfAccess::ByValue,
            SelfAccess::ByRef,
            SelfAccess::ByMutRef,
            SelfAccess::ByMutRef,
        ]
    );
    assert_eq!(args.effects[0].functions[5].alias, Some("g".to_string()));
}

#[test]
fn another_annotation_is_refused() {
    assert_eq!(refused("S(a(mut self))"), at(MalformedDeclaration::InvalidSelfAccess, 4));
    assert_eq!(refused("S(a(&))"), at(MalformedDeclaration::InvalidSelfAccess, 4));
    assert_eq!(refused("S(a(&mutself))"), at(MalformedDeclaration::InvalidSelfAccess, 4));
    assert_eq!(refused("S(a(self, x))"), at(MalformedDeclaration::InvalidSelfAccess, 4));
    assert_eq!(refused("S(a(&mut self"), at(MalformedDeclaration::InvalidSelfAccess, 4));
    assert_eq!(refused("S(a("), at(MalformedDeclaration::InvalidSelfAccess, 4));
    assert_eq!(refused("P => S(a, b(&&self))"), at(MalformedDeclaration::InvalidSelfAccess, 8));
}

#[test]
fn names_must_be_identifiers() {
    assert_eq!(refused("9x => P()"), at(MalformedDeclaration::InvalidName, 0));
    assert_eq!(refused("a::9b(f)"), at(MalformedDeclaration::InvalidSegment, 2));
    assert_eq!(refused("7(f)"), at(MalformedDeclaration::InvalidSegment, 0));
    assert_eq!(refused("P(9f)"), at(MalformedDeclaration::InvalidOperation, 2));
    assert_eq!(refused("P(f as 9)"), at(MalformedDeclaration::InvalidAlias, 4));
    assert_eq!(refused("P(f(&self) as 1st)"), at(MalformedDeclaration::InvalidAlias, 8));
}

#[test]
fn a_token_out_of_place_is_refused_where_it_stands() {
    let unexpected = |n: usize| at(MalformedDeclaration::UnexpectedToken, n);
    assert_eq!(refused("Printer"), unexpected(1));
    assert_eq!(refused("Printer("), unexpected(2));
    assert_eq!(refused("Printer(print"), unexpected(3));
    assert_eq!(refused("Printer(print as"), unexpected(4));
    assert_eq!(refused("Printer(print as ,)"), unexpected(4));
    assert_eq!(refused("P(f) Q(g)"), unexpected(4));
    assert_eq!(refused("P(f),,Q(g)"), unexpected(5));
    assert_eq!(refused("P(,)"), unexpected(2));
    assert_eq!(refused("P(f g)"), unexpected(3));
    assert_eq!(refused("=> P()"), unexpected(0));
    assert_eq!(refused("a => b => P()"), unexpected(3));
    assert_eq!(refused("a::(f)"), unexpected(2));
    assert_eq!(refused("::a(f)"), unexpected(0));
    assert_eq!(refused("P(f))"), unexpected(4));
    assert_eq!(refused(","), unexpected(0));
}

#[test]
fn a_bad_character_is_reported_before_anything_else() {
    assert_eq!(refused("9x => P(f) ;"), at(MalformedDeclaration::UnexpectedCharacter, 11));
}

#[test]
fn an_operation_is_read_where_it_stands() {
    let tokens = tokenize("S(get(&self) as g, put)").unwrap();
    let (get, after) = EffectFunction::parse(&tokens, 2).unwrap();
    assert_eq!(get, operation("get", Some("g"), SelfAccess::ByRef));
    assert_eq!(after, 9);
    let (put, after) = EffectFunction::parse(&tokens, 10).unwrap();
    assert_eq!(put, operation("put", None, SelfAccess::NoReceiver));
    assert_eq!(after, 11);
    assert_eq!(EffectFunction::parse(&tokens, 1), Err(at(MalformedDeclaration::UnexpectedToken, 1)));
    assert_eq!(EffectFunction::parse(&tokens, 40), Err(at(MalformedDeclaration::UnexpectedToken, 40)));
}

#[test]
fn an_effect_is_read_where_it_stands() {
    let tokens = tokenize("P => a::S(get), T()").unwrap();
    let (effect, after) = Effect::parse(&tokens, 2).unwrap();
    assert_eq!(effect, Effect::new(path(&["a", "S"]), vec![operation("get", None, SelfAccess::NoReceiver)]).unwrap());
    assert_eq!(after, 8);
    let (effect, after) = Effect::parse(&tokens, 9).unwrap();
    assert_eq!(effect, Effect::new(path(&["T"]), vec![]).unwrap());
    assert_eq!(after, 12);
    assert_eq!(Effect::parse(&tokens, 12), Err(at(MalformedDeclaration::UnexpectedToken, 12)));
}

#[test]
fn words_of_the_grammar_are_names_elsewhere() {
    let args = Args::parse("mut(as as self)").unwrap();
    assert_eq!(args.effects[0].name, "mut");
    assert_eq!(args.effects[0].functions, vec![operation("as", Some("self"), SelfAccess::NoReceiver)]);
}

#[test]
fn the_plain_written_form_is_read_back() {
    let written = "P => a :: S ( get ( & mut self ) as g , put ) , T ( ) ";
    let expected = Args::new(
        Some("P".to_string()),
        vec![
            Effect::new(
                path(&["a", "S"]),
                vec![operation("get", Some("g"), SelfAccess::ByMutRef), operation("put", None, SelfAccess::NoReceiver)],
            )
            .unwrap(),
            Effect::new(path(&["T"]), vec![]).unwrap(),
        ],
    )
    .unwrap();
    assert_eq!(Args::parse(written), Ok(expected));
}
