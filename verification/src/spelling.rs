//! The plain written form of a declaration, token by token, and the proof
//! that reading it gives the declaration back.

use vstd::prelude::*;
use crate::parse::{
    is_identifier, is_name_char, ArgsView, EffectFunctionView, EffectView, MalformedDeclaration,
    SelfAccess,
};
use crate::syntax::{
    annotation_at, declaration_at, declaration_of, effect_at, effects_from, is_token,
    operation_at, operations_from, path_rest, scan, tokens_of, TokenView,
};

verus! {

/// `:: segment` for every segment of `path` from position `from` on.
pub open spec fn spell_path_from(path: Seq<Seq<char>>, from: int) -> Seq<TokenView>
    decreases path.len() - from,
{
    if from < 0 || from >= path.len() {
        Seq::empty()
    } else {
        seq![TokenView::PathSep, TokenView::Word(path[from])] + spell_path_from(path, from + 1)
    }
}

/// `a :: b :: Interface`
pub open spec fn spell_path(path: Seq<Seq<char>>) -> Seq<TokenView> {
    seq![TokenView::Word(path[0])] + spell_path_from(path, 1)
}

/// Nothing, `( self )`, `( & self )` or `( & mut self )`.
pub open spec fn spell_annotation(mode: SelfAccess) -> Seq<TokenView> {
    match mode {
        SelfAccess::NoReceiver => Seq::empty(),
        SelfAccess::ByValue => seq![TokenView::Open, TokenView::Word("self"@), TokenView::Close],
        SelfAccess::ByRef => seq![
            TokenView::Open,
            TokenView::Amp,
            TokenView::Word("self"@),
            TokenView::Close,
        ],
        SelfAccess::ByMutRef => seq![
            TokenView::Open,
            TokenView::Amp,
            TokenView::Word("mut"@),
            TokenView::Word("self"@),
            TokenView::Close,
        ],
    }
}

/// `as alias`, or nothing.
pub open spec fn spell_alias(alias: Option<Seq<char>>) -> Seq<TokenView> {
    match alias {
        Some(alias) => seq![TokenView::Word("as"@), TokenView::Word(alias)],
        None => Seq::empty(),
    }
}

/// `name ( & mut self ) as alias`
pub open spec fn spell_operation(operation: EffectFunctionView) -> Seq<TokenView> {
    seq![TokenView::Word(operation.ident)] + spell_annotation(operation.self_reference)
        + spell_alias(operation.alias)
}

/// The operations from position `from` on, with a comma between them, and
/// the closing parenthesis.
pub open spec fn spell_operations_from(operations: Seq<EffectFunctionView>, from: int) -> Seq<
    TokenView,
>
    decreases operations.len() - from,
{
    if from < 0 || from >= operations.len() {
        seq![TokenView::Close]
    } else if from == operations.len() - 1 {
        spell_operation(operations[from]) + seq![TokenView::Close]
    } else {
        spell_operation(operations[from]) + seq![TokenView::Comma] + spell_operations_from(
            operations,
            from + 1,
        )
    }
}

/// `a :: Interface ( first , second )`
pub open spec fn spell_effect(effect: EffectView) -> Seq<TokenView> {
    spell_path(effect.path) + seq![TokenView::Open] + spell_operations_from(effect.functions, 0)
}

/// The effects from position `from` on, with a comma between them.
pub open spec fn spell_effects_from(effects: Seq<EffectView>, from: int) -> Seq<TokenView>
    decreases effects.len() - from,
{
    if from < 0 || from >= effects.len() {
        Seq::empty()
    } else if from == effects.len() - 1 {
        spell_effect(effects[from])
    } else {
        spell_effect(effects[from]) + seq![TokenView::Comma] + spell_effects_from(effects, from + 1)
    }
}

/// `Name => First ( .. ) , Second ( .. )`, the name and its arrow only
/// where the declaration has a name.
pub open spec fn spell(args: ArgsView) -> Seq<TokenView> {
    (match args.name {
        Some(name) => seq![TokenView::Word(name), TokenView::FatArrow],
        None => Seq::empty(),
    }) + spell_effects_from(args.effects, 0)
}

/// `part` stands in `tokens` at `pos`.
pub open spec fn spelled_at<T>(tokens: Seq<T>, pos: int, part: Seq<T>) -> bool {
    &&& 0 <= pos
    &&& pos + part.len() <= tokens.len()
    &&& forall|k: int| 0 <= k < part.len() ==> tokens[pos + k] == #[trigger] part[k]
}

/// Where two parts stand one after another, each of them stands.
pub proof fn lemma_spelled_parts<T>(tokens: Seq<T>, pos: int, first: Seq<T>, second: Seq<T>)
    requires
        spelled_at(tokens, pos, first + second),
    ensures
        spelled_at(tokens, pos, first),
        spelled_at(tokens, pos + first.len(), second),
{
    let whole = first + second;
    assert forall|k: int| 0 <= k < first.len() implies tokens[pos + k] == #[trigger] first[k] by {
        assert(whole[k] == first[k]);
    }
    assert forall|k: int| 0 <= k < second.len() implies tokens[pos + first.len() + k]
        == #[trigger] second[k] by {
        assert(whole[first.len() + k] == second[k]);
    }
}

/// Reading the rest of a written interface reference gives the reference.
pub proof fn lemma_read_path_rest(tokens: Seq<TokenView>, pos: int, path: Seq<Seq<char>>, from: int)
    requires
        1 <= from <= path.len(),
        forall|i: int| 0 <= i < path.len() ==> is_identifier(#[trigger] path[i]),
        spelled_at(tokens, pos, spell_path_from(path, from)),
        !is_token(tokens, pos + spell_path_from(path, from).len(), TokenView::PathSep),
    ensures
        path_rest(tokens, pos, path.subrange(0, from)) == Ok::<
            (Seq<Seq<char>>, int),
            (MalformedDeclaration, int),
        >((path, pos + spell_path_from(path, from).len())),
    decreases path.len() - from,
{
    if from == path.len() {
        assert(path.subrange(0, from) =~= path);
    } else {
        let head = seq![TokenView::PathSep, TokenView::Word(path[from])];
        let tail = spell_path_from(path, from + 1);
        lemma_spelled_parts(tokens, pos, head, tail);
        assert(head[0] == TokenView::PathSep);
        assert(head[1] == TokenView::Word(path[from]));
        assert(tokens[pos + 0] == TokenView::PathSep);
        assert(tokens[pos + 1] == TokenView::Word(path[from]));
        assert(path.subrange(0, from).push(path[from]) =~= path.subrange(0, from + 1));
        lemma_read_path_rest(tokens, pos + 2, path, from + 1);
    }
}

/// Reading a written annotation gives its access mode. Where nothing is
/// written, no parenthesis may follow.
pub proof fn lemma_read_annotation(tokens: Seq<TokenView>, pos: int, mode: SelfAccess)
    requires
        spelled_at(tokens, pos, spell_annotation(mode)),
        mode == SelfAccess::NoReceiver ==> !is_token(tokens, pos, TokenView::Open),
    ensures
        annotation_at(tokens, pos) == Ok::<(SelfAccess, int), (MalformedDeclaration, int)>(
            (mode, pos + spell_annotation(mode).len()),
        ),
{
    reveal_strlit("self");
    reveal_strlit("mut");
    assert("self"@ != "mut"@) by {
        assert("self"@.len() != "mut"@.len());
    }
    let written = spell_annotation(mode);
    match mode {
        SelfAccess::NoReceiver => {},
        SelfAccess::ByValue => {
            assert(written[0] == TokenView::Open);
            assert(written[1] == TokenView::Word("self"@));
            assert(written[2] == TokenView::Close);
            assert(tokens[pos + 0] == TokenView::Open);
            assert(tokens[pos + 1] == TokenView::Word("self"@));
            assert(tokens[pos + 2] == TokenView::Close);
        },
        SelfAccess::ByRef => {
            assert(written[0] == TokenView::Open);
            assert(written[1] == TokenView::Amp);
            assert(written[2] == TokenView::Word("self"@));
            assert(written[3] == TokenView::Close);
            assert(tokens[pos + 0] == TokenView::Open);
            assert(tokens[pos + 1] == TokenView::Amp);
            assert(tokens[pos + 2] == TokenView::Word("self"@));
            assert(tokens[pos + 3] == TokenView::Close);
        },
        SelfAccess::ByMutRef => {
            assert(written[0] == TokenView::Open);
            assert(written[1] == TokenView::Amp);
            assert(written[2] == TokenView::Word("mut"@));
            assert(written[3] == TokenView::Word("self"@));
            assert(written[4] == TokenView::Close);
            assert(tokens[pos + 0] == TokenView::Open);
            assert(tokens[pos + 1] == TokenView::Amp);
            assert(tokens[pos + 2] == TokenView::Word("mut"@));
            assert(tokens[pos + 3] == TokenView::Word("self"@));
            assert(tokens[pos + 4] == TokenView::Close);
        },
    }
}

/// Reading a written operation gives the operation, where a comma or the
/// closing parenthesis follows it.
pub proof fn lemma_read_operation(tokens: Seq<TokenView>, pos: int, operation: EffectFunctionView)
    requires
        operation.wf(),
        spelled_at(tokens, pos, spell_operation(operation)),
        is_token(tokens, pos + spell_operation(operation).len(), TokenView::Comma) || is_token(
            tokens,
            pos + spell_operation(operation).len(),
            TokenView::Close,
        ),
    ensures
        operation_at(tokens, pos) == Ok::<(EffectFunctionView, int), (MalformedDeclaration, int)>(
            (operation, pos + spell_operation(operation).len()),
        ),
{
    let name = seq![TokenView::Word(operation.ident)];
    let annotation = spell_annotation(operation.self_reference);
    let alias = spell_alias(operation.alias);
    lemma_spelled_parts(tokens, pos, name + annotation, alias);
    lemma_spelled_parts(tokens, pos, name, annotation);
    assert(name[0] == TokenView::Word(operation.ident));
    assert(tokens[pos + 0] == TokenView::Word(operation.ident));
    let after = pos + 1 + annotation.len();
    match operation.alias {
        Some(text) => {
            assert(alias[0] == TokenView::Word("as"@));
            assert(alias[1] == TokenView::Word(text));
            assert(tokens[after + 0] == TokenView::Word("as"@));
            assert(tokens[after + 1] == TokenView::Word(text));
        },
        None => {},
    }
    if operation.self_reference == SelfAccess::NoReceiver {
        assert(after == pos + 1);
        assert(!is_token(tokens, pos + 1, TokenView::Open));
    }
    lemma_read_annotation(tokens, pos + 1, operation.self_reference);
}

/// Reading a written list of operations gives the operations.
pub proof fn lemma_read_operations(
    tokens: Seq<TokenView>,
    pos: int,
    operations: Seq<EffectFunctionView>,
    from: int,
)
    requires
        0 <= from <= operations.len(),
        forall|f: int| 0 <= f < operations.len() ==> (#[trigger] operations[f]).wf(),
        spelled_at(tokens, pos, spell_operations_from(operations, from)),
    ensures
        operations_from(tokens, pos, operations.subrange(0, from)) == Ok::<
            (Seq<EffectFunctionView>, int),
            (MalformedDeclaration, int),
        >((operations, pos + spell_operations_from(operations, from).len())),
    decreases operations.len() - from,
{
    let read = operations.subrange(0, from);
    if from == operations.len() {
        let written = seq![TokenView::Close];
        assert(written[0] == TokenView::Close);
        assert(tokens[pos + 0] == TokenView::Close);
        assert(read =~= operations);
    } else {
        let operation = operations[from];
        let first = spell_operation(operation);
        assert(operation.wf());
        assert(first[0] == TokenView::Word(operation.ident));
        assert(read.push(operation) =~= operations.subrange(0, from + 1));
        if from == operations.len() - 1 {
            let close = seq![TokenView::Close];
            lemma_spelled_parts(tokens, pos, first, close);
            assert(close[0] == TokenView::Close);
            assert(tokens[pos + first.len() + 0] == TokenView::Close);
            assert(tokens[pos + 0] == first[0]);
            lemma_read_operation(tokens, pos, operation);
            assert(operations.subrange(0, from + 1) =~= operations);
        } else {
            let comma = seq![TokenView::Comma];
            let rest = spell_operations_from(operations, from + 1);
            lemma_spelled_parts(tokens, pos, first + comma, rest);
            lemma_spelled_parts(tokens, pos, first, comma);
            assert(comma[0] == TokenView::Comma);
            assert(tokens[pos + first.len() + 0] == TokenView::Comma);
            assert(tokens[pos + 0] == first[0]);
            lemma_read_operation(tokens, pos, operation);
            lemma_read_operations(tokens, pos + first.len() + 1, operations, from + 1);
        }
    }
}

/// An effect is named after its interface.
pub open spec fn named_after_interface(effect: EffectView) -> bool {
    effect.path.len() > 0 && effect.name == effect.path.last()
}

/// A written effect has at least two tokens, and its second is no arrow.
pub proof fn lemma_effect_starts_without_arrow(effect: EffectView)
    requires
        effect.path.len() > 0,
    ensures
        spell_effect(effect).len() >= 2,
        spell_effect(effect)[1] != TokenView::FatArrow,
{
    let first = seq![TokenView::Word(effect.path[0])];
    let rest = spell_path_from(effect.path, 1);
    let open = seq![TokenView::Open];
    let operations = spell_operations_from(effect.functions, 0);
    let written = spell_effect(effect);
    assert(written == ((first + rest) + open) + operations);
    if effect.path.len() == 1 {
        assert(rest.len() == 0);
        assert(written[1] == open[0]);
    } else {
        let head = seq![TokenView::PathSep, TokenView::Word(effect.path[1])];
        assert(rest == head + spell_path_from(effect.path, 2));
        assert(rest[0] == head[0]);
        assert(written[1] == rest[0]);
    }
}

/// Reading a written effect gives the effect.
pub proof fn lemma_read_effect(tokens: Seq<TokenView>, pos: int, effect: EffectView)
    requires
        effect.wf(),
        named_after_interface(effect),
        spelled_at(tokens, pos, spell_effect(effect)),
    ensures
        effect_at(tokens, pos) == Ok::<(EffectView, int), (MalformedDeclaration, int)>(
            (effect, pos + spell_effect(effect).len()),
        ),
{
    let path = effect.path;
    let first = seq![TokenView::Word(path[0])];
    let rest = spell_path_from(path, 1);
    let open = seq![TokenView::Open];
    let operations = spell_operations_from(effect.functions, 0);
    lemma_spelled_parts(tokens, pos, (first + rest) + open, operations);
    lemma_spelled_parts(tokens, pos, first + rest, open);
    lemma_spelled_parts(tokens, pos, first, rest);
    assert(first[0] == TokenView::Word(path[0]));
    assert(tokens[pos + 0] == TokenView::Word(path[0]));
    assert(is_identifier(path[0]));
    let after = pos + 1 + rest.len();
    assert(open[0] == TokenView::Open);
    assert(tokens[after + 0] == TokenView::Open);
    assert(seq![path[0]] =~= path.subrange(0, 1));
    lemma_read_path_rest(tokens, pos + 1, path, 1);
    assert(effect.functions.subrange(0, 0) =~= Seq::empty());
    lemma_read_operations(tokens, after + 1, effect.functions, 0);
}

/// Reading a written list of effects, which runs to the end of the tokens,
/// gives the effects.
pub proof fn lemma_read_effects(tokens: Seq<TokenView>, pos: int, effects: Seq<EffectView>, from: int)
    requires
        0 <= from <= effects.len(),
        forall|i: int|
            0 <= i < effects.len() ==> (#[trigger] effects[i]).wf() && named_after_interface(
                effects[i],
            ),
        spelled_at(tokens, pos, spell_effects_from(effects, from)),
        pos + spell_effects_from(effects, from).len() == tokens.len(),
    ensures
        effects_from(tokens, pos, effects.subrange(0, from)) == Ok::<
            Seq<EffectView>,
            (MalformedDeclaration, int),
        >(effects),
    decreases effects.len() - from,
{
    let read = effects.subrange(0, from);
    if from == effects.len() {
        assert(read =~= effects);
    } else {
        let effect = effects[from];
        let first = spell_effect(effect);
        assert(effect.wf() && named_after_interface(effect));
        lemma_effect_starts_without_arrow(effect);
        assert(read.push(effect) =~= effects.subrange(0, from + 1));
        if from == effects.len() - 1 {
            lemma_read_effect(tokens, pos, effect);
            assert(effects.subrange(0, from + 1) =~= effects);
        } else {
            let comma = seq![TokenView::Comma];
            let rest = spell_effects_from(effects, from + 1);
            lemma_spelled_parts(tokens, pos, first + comma, rest);
            lemma_spelled_parts(tokens, pos, first, comma);
            assert(comma[0] == TokenView::Comma);
            assert(tokens[pos + first.len() + 0] == TokenView::Comma);
            lemma_read_effect(tokens, pos, effect);
            lemma_read_effects(tokens, pos + first.len() + 1, effects, from + 1);
        }
    }
}

/// Reading gives back what was written: the tokens that spell a well-formed
/// declaration, whose effects are named after their interfaces, are read as
/// that declaration.
pub proof fn lemma_reading_gives_back(args: ArgsView)
    requires
        args.wf(),
        forall|i: int| 0 <= i < args.effects.len() ==> named_after_interface(#[trigger] args.effects[i]),
    ensures
        declaration_at(spell(args)) == Ok::<ArgsView, (MalformedDeclaration, int)>(args),
{
    let tokens = spell(args);
    let effects = spell_effects_from(args.effects, 0);
    assert(args.effects.subrange(0, 0) =~= Seq::empty());
    match args.name {
        Some(name) => {
            let head = seq![TokenView::Word(name), TokenView::FatArrow];
            assert(tokens == head + effects);
            assert(spelled_at(tokens, 0, head + effects));
            lemma_spelled_parts(tokens, 0, head, effects);
            assert(head[0] == TokenView::Word(name));
            assert(head[1] == TokenView::FatArrow);
            assert(tokens[0int + 0] == TokenView::Word(name));
            assert(tokens[0int + 1] == TokenView::FatArrow);
            lemma_read_effects(tokens, 2, args.effects, 0);
        },
        None => {
            assert(tokens =~= effects);
            assert(spelled_at(tokens, 0, effects));
            if args.effects.len() > 0 {
                let first = args.effects[0];
                assert(first.wf());
                lemma_effect_starts_without_arrow(first);
                if args.effects.len() == 1 {
                    assert(effects == spell_effect(first));
                } else {
                    let rest = spell_effects_from(args.effects, 1);
                    assert(effects == (spell_effect(first) + seq![TokenView::Comma]) + rest);
                    assert(effects[1] == spell_effect(first)[1]);
                }
                assert(tokens[1] != TokenView::FatArrow);
            }
            lemma_read_effects(tokens, 0, args.effects, 0);
        },
    }
}

/// How a token is written.
pub open spec fn token_text(token: TokenView) -> Seq<char> {
    match token {
        TokenView::Word(word) => word,
        TokenView::FatArrow => seq!['=', '>'],
        TokenView::PathSep => seq![':', ':'],
        TokenView::Comma => seq![','],
        TokenView::Open => seq!['('],
        TokenView::Close => seq![')'],
        TokenView::Amp => seq!['&'],
    }
}

/// The tokens from position `from` on, each written out and followed by one
/// space.
pub open spec fn write_from(tokens: Seq<TokenView>, from: int) -> Seq<char>
    decreases tokens.len() - from,
{
    if from < 0 || from >= tokens.len() {
        Seq::empty()
    } else {
        token_text(tokens[from]) + seq![' '] + write_from(tokens, from + 1)
    }
}

/// A word: one name character or more.
pub open spec fn is_word(word: Seq<char>) -> bool {
    &&& word.len() > 0
    &&& forall|k: int| 0 <= k < word.len() ==> is_name_char(#[trigger] word[k])
}

/// Every word token among `tokens` holds a word.
pub open spec fn holds_words(tokens: Seq<TokenView>) -> bool {
    forall|i: int|
        0 <= i < tokens.len() && (#[trigger] tokens[i]) is Word ==> is_word(tokens[i]->Word_0)
}

/// Reading through a written word collects the word.
pub proof fn lemma_scan_word(
    text: Seq<char>,
    pos: int,
    tokens: Seq<TokenView>,
    word: Seq<char>,
    read: int,
)
    requires
        0 <= read <= word.len(),
        is_word(word),
        spelled_at(text, pos, word),
    ensures
        scan(text, pos + read, tokens, word.subrange(0, read)) == scan(
            text,
            pos + word.len(),
            tokens,
            word,
        ),
    decreases word.len() - read,
{
    if read < word.len() {
        assert(text[pos + read] == word[read]);
        assert(is_name_char(word[read]));
        assert(word.subrange(0, read).push(word[read]) =~= word.subrange(0, read + 1));
        lemma_scan_word(text, pos, tokens, word, read + 1);
    } else {
        assert(word.subrange(0, read) =~= word);
    }
}

/// Reading written tokens, which run to the end of the text, gives the
/// tokens.
pub proof fn lemma_scan_written(
    text: Seq<char>,
    pos: int,
    read: Seq<TokenView>,
    tokens: Seq<TokenView>,
    from: int,
)
    requires
        0 <= from <= tokens.len(),
        holds_words(tokens),
        spelled_at(text, pos, write_from(tokens, from)),
        pos + write_from(tokens, from).len() == text.len(),
    ensures
        scan(text, pos, read, Seq::empty()) == Ok::<Seq<TokenView>, (MalformedDeclaration, int)>(
            read + tokens.subrange(from, tokens.len() as int),
        ),
    decreases tokens.len() - from,
{
    let nothing = Seq::<char>::empty();
    if from == tokens.len() {
        assert(read + tokens.subrange(from, tokens.len() as int) =~= read);
    } else {
        let token = tokens[from];
        let written = token_text(token);
        let space = seq![' '];
        let rest = write_from(tokens, from + 1);
        lemma_spelled_parts(text, pos, written + space, rest);
        lemma_spelled_parts(text, pos, written, space);
        let after = pos + written.len();
        assert(space[0] == ' ');
        assert(text[after + 0] == ' ');
        assert(read.push(token) + tokens.subrange(from + 1, tokens.len() as int) =~= read
            + tokens.subrange(from, tokens.len() as int));
        match token {
            TokenView::Word(word) => {
                assert(is_word(word));
                assert(word.subrange(0, 0) =~= nothing);
                lemma_scan_word(text, pos, read, word, 0);
                assert(scan(text, after, read, word) == scan(text, after + 1, read.push(token), nothing));
            },
            TokenView::FatArrow => {
                assert(written[0] == '=' && written[1] == '>');
                assert(text[pos + 0] == '=' && text[pos + 1] == '>');
                assert(scan(text, pos, read, nothing) == scan(text, pos + 2, read.push(token), nothing));
                assert(scan(text, after, read.push(token), nothing) == scan(
                    text,
                    after + 1,
                    read.push(token),
                    nothing,
                ));
            },
            TokenView::PathSep => {
                assert(written[0] == ':' && written[1] == ':');
                assert(text[pos + 0] == ':' && text[pos + 1] == ':');
                assert(scan(text, pos, read, nothing) == scan(text, pos + 2, read.push(token), nothing));
                assert(scan(text, after, read.push(token), nothing) == scan(
                    text,
                    after + 1,
                    read.push(token),
                    nothing,
                ));
            },
            _ => {
                assert(written.len() == 1);
                assert(text[pos + 0] == written[0]);
                assert(scan(text, pos, read, nothing) == scan(text, pos + 1, read.push(token), nothing));
                assert(scan(text, after, read.push(token), nothing) == scan(
                    text,
                    after + 1,
                    read.push(token),
                    nothing,
                ));
            },
        }
        lemma_scan_written(text, after + 1, read.push(token), tokens, from + 1);
    }
}

/// Written tokens are read as themselves: where every word token holds a
/// word, the text that writes the tokens out, a space behind each, is split
/// into just these tokens.
pub proof fn lemma_written_tokens_are_read(tokens: Seq<TokenView>)
    requires
        holds_words(tokens),
    ensures
        tokens_of(write_from(tokens, 0)) == Ok::<Seq<TokenView>, (MalformedDeclaration, int)>(
            tokens,
        ),
{
    let text = write_from(tokens, 0);
    assert(spelled_at(text, 0, text));
    lemma_scan_written(text, 0, Seq::empty(), tokens, 0);
    assert(Seq::<TokenView>::empty() + tokens.subrange(0, tokens.len() as int) =~= tokens);
}

/// A text whose tokens spell a well-formed declaration, with its effects
/// named after their interfaces, is read as that declaration.
pub proof fn lemma_written_declaration_is_read(text: Seq<char>, args: ArgsView)
    requires
        args.wf(),
        forall|i: int| 0 <= i < args.effects.len() ==> named_after_interface(#[trigger] args.effects[i]),
        tokens_of(text) == Ok::<Seq<TokenView>, (MalformedDeclaration, int)>(spell(args)),
    ensures
        declaration_of(text) == Ok::<ArgsView, (MalformedDeclaration, int)>(args),
{
    lemma_reading_gives_back(args);
}

/// Tokens that hold words, one after another, hold words.
pub proof fn lemma_words_joined(first: Seq<TokenView>, second: Seq<TokenView>)
    requires
        holds_words(first),
        holds_words(second),
    ensures
        holds_words(first + second),
{
    let whole = first + second;
    assert forall|i: int| 0 <= i < whole.len() && (#[trigger] whole[i]) is Word implies is_word(
        whole[i]->Word_0,
    ) by {
        if i < first.len() {
            assert(whole[i] == first[i]);
        } else {
            assert(whole[i] == second[i - first.len()]);
        }
    }
}

/// The words of the grammar are words.
pub proof fn lemma_grammar_words()
    ensures
        is_word("self"@),
        is_word("mut"@),
        is_word("as"@),
{
    reveal_strlit("self");
    reveal_strlit("mut");
    reveal_strlit("as");
}

/// A written interface reference holds words.
pub proof fn lemma_path_holds_words(path: Seq<Seq<char>>, from: int)
    requires
        0 <= from <= path.len(),
        forall|i: int| 0 <= i < path.len() ==> is_identifier(#[trigger] path[i]),
    ensures
        holds_words(spell_path_from(path, from)),
    decreases path.len() - from,
{
    if from < path.len() {
        lemma_path_holds_words(path, from + 1);
        assert(is_identifier(path[from]));
        let head = seq![TokenView::PathSep, TokenView::Word(path[from])];
        assert(holds_words(head));
        lemma_words_joined(head, spell_path_from(path, from + 1));
    }
}

/// A written operation holds words.
pub proof fn lemma_operation_holds_words(operation: EffectFunctionView)
    requires
        operation.wf(),
    ensures
        holds_words(spell_operation(operation)),
{
    lemma_grammar_words();
    let name = seq![TokenView::Word(operation.ident)];
    let annotation = spell_annotation(operation.self_reference);
    let alias = spell_alias(operation.alias);
    assert(holds_words(name));
    assert(holds_words(annotation));
    assert(holds_words(alias));
    lemma_words_joined(name, annotation);
    lemma_words_joined(name + annotation, alias);
}

/// A written list of operations holds words.
pub proof fn lemma_operations_hold_words(operations: Seq<EffectFunctionView>, from: int)
    requires
        0 <= from <= operations.len(),
        forall|f: int| 0 <= f < operations.len() ==> (#[trigger] operations[f]).wf(),
    ensures
        holds_words(spell_operations_from(operations, from)),
    decreases operations.len() - from,
{
    let close = seq![TokenView::Close];
    let comma = seq![TokenView::Comma];
    assert(holds_words(close));
    assert(holds_words(comma));
    if from < operations.len() {
        assert(operations[from].wf());
        lemma_operation_holds_words(operations[from]);
        let first = spell_operation(operations[from]);
        if from == operations.len() - 1 {
            lemma_words_joined(first, close);
        } else {
            lemma_operations_hold_words(operations, from + 1);
            lemma_words_joined(first, comma);
            lemma_words_joined(first + comma, spell_operations_from(operations, from + 1));
        }
    }
}

/// A written effect holds words.
pub proof fn lemma_effect_holds_words(effect: EffectView)
    requires
        effect.wf(),
    ensures
        holds_words(spell_effect(effect)),
{
    let first = seq![TokenView::Word(effect.path[0])];
    let open = seq![TokenView::Open];
    assert(is_identifier(effect.path[0]));
    assert(holds_words(first));
    assert(holds_words(open));
    lemma_path_holds_words(effect.path, 1);
    lemma_operations_hold_words(effect.functions, 0);
    lemma_words_joined(first, spell_path_from(effect.path, 1));
    lemma_words_joined(spell_path(effect.path), open);
    lemma_words_joined(spell_path(effect.path) + open, spell_operations_from(effect.functions, 0));
}

/// A written list of effects holds words.
pub proof fn lemma_effects_hold_words(effects: Seq<EffectView>, from: int)
    requires
        0 <= from <= effects.len(),
        forall|i: int| 0 <= i < effects.len() ==> (#[trigger] effects[i]).wf(),
    ensures
        holds_words(spell_effects_from(effects, from)),
    decreases effects.len() - from,
{
    if from < effects.len() {
        assert(effects[from].wf());
        lemma_effect_holds_words(effects[from]);
        let first = spell_effect(effects[from]);
        if from < effects.len() - 1 {
            let comma = seq![TokenView::Comma];
            assert(holds_words(comma));
            lemma_effects_hold_words(effects, from + 1);
            lemma_words_joined(first, comma);
            lemma_words_joined(first + comma, spell_effects_from(effects, from + 1));
        }
    }
}

/// The plain written form of a declaration: its tokens, a space behind
/// each.
pub open spec fn write(args: ArgsView) -> Seq<char> {
    write_from(spell(args), 0)
}

/// What is written is read back: the written form of a well-formed
/// declaration, whose effects are named after their interfaces, is read as
/// that declaration.
pub proof fn lemma_written_declaration_reads_back(args: ArgsView)
    requires
        args.wf(),
        forall|i: int| 0 <= i < args.effects.len() ==> named_after_interface(#[trigger] args.effects[i]),
    ensures
        declaration_of(write(args)) == Ok::<ArgsView, (MalformedDeclaration, int)>(args),
{
    let head = match args.name {
        Some(name) => seq![TokenView::Word(name), TokenView::FatArrow],
        None => Seq::empty(),
    };
    assert(holds_words(head));
    lemma_effects_hold_words(args.effects, 0);
    lemma_words_joined(head, spell_effects_from(args.effects, 0));
    lemma_written_tokens_are_read(spell(args));
    lemma_written_declaration_is_read(write(args), args);
}

} // verus!
