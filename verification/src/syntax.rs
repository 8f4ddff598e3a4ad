//! The written form of a declaration:
//!
//! ```text
//! Name => a::Interface(operation(&mut self) as alias, other), Second(third(self))
//! ```
//!
//! The name and its arrow are optional; so are an operation's self-access
//! annotation and its alias; lists may end with a comma.
//!
//! ```text
//! declaration = [ name "=>" ] [ effect { "," effect } [ "," ] ]
//! effect      = path "(" [ operation { "," operation } [ "," ] ] ")"
//! path        = name { "::" name }
//! operation   = name [ "(" [ access ] ")" ] [ "as" name ]
//! access      = "self" | "&" "self" | "&" "mut" "self"
//! ```
//!
//! A name is an identifier. Spaces, tabs and line ends separate tokens.

use vstd::prelude::*;
use vstd::string::*;
use crate::parse::{
    is_identifier, is_name_char, check_identifier, views, Args, ArgsView, Effect, EffectFunction,
    EffectFunctionView, EffectView, MalformedDeclaration, Path, SelfAccess,
};

verus! {

/// Where and why reading a declaration stopped.
#[derive(Clone, Copy, PartialEq, Eq, Structural, Debug)]
pub struct ParseError {
    pub reason: MalformedDeclaration,
    /// The position of the offending character, where the reason is an
    /// unexpected character; else the position of the offending token, which
    /// is the number of tokens where the text ends too early.
    pub at: usize,
}

impl View for ParseError {
    type V = (MalformedDeclaration, int);

    open spec fn view(&self) -> (MalformedDeclaration, int) {
        (self.reason, self.at as int)
    }
}

/// One token of a declaration.
#[derive(Debug, PartialEq, Eq)]
pub enum Token {
    /// A run of name characters.
    Word(String),
    /// `=>`
    FatArrow,
    /// `::`
    PathSep,
    /// `,`
    Comma,
    /// `(`
    Open,
    /// `)`
    Close,
    /// `&`
    Amp,
}

pub enum TokenView {
    Word(Seq<char>),
    FatArrow,
    PathSep,
    Comma,
    Open,
    Close,
    Amp,
}

impl View for Token {
    type V = TokenView;

    open spec fn view(&self) -> TokenView {
        match self {
            Token::Word(text) => TokenView::Word(text@),
            Token::FatArrow => TokenView::FatArrow,
            Token::PathSep => TokenView::PathSep,
            Token::Comma => TokenView::Comma,
            Token::Open => TokenView::Open,
            Token::Close => TokenView::Close,
            Token::Amp => TokenView::Amp,
        }
    }
}

/// Whether `c` separates tokens without being one.
pub open spec fn is_space(c: char) -> bool {
    c == ' ' || c == '\t' || c == '\n' || c == '\r'
}

/// The tokens read so far, with the word in progress closed, if there is one.
pub open spec fn flush(tokens: Seq<TokenView>, word: Seq<char>) -> Seq<TokenView> {
    if word.len() == 0 {
        tokens
    } else {
        tokens.push(TokenView::Word(word))
    }
}

/// Reads `text` from `pos` on, character by character, after `tokens` and
/// with `word` in progress. A name character extends the word. Any other
/// character closes it: a space is passed over, `,`, `(`, `)`, `&`, `=>` and
/// `::` are tokens, and nothing else is accepted.
pub open spec fn scan(text: Seq<char>, pos: int, tokens: Seq<TokenView>, word: Seq<char>) -> Result<
    Seq<TokenView>,
    (MalformedDeclaration, int),
>
    decreases text.len() - pos,
{
    if pos < 0 || pos >= text.len() {
        Ok(flush(tokens, word))
    } else {
        let c = text[pos];
        let closed = flush(tokens, word);
        if is_name_char(c) {
            scan(text, pos + 1, tokens, word.push(c))
        } else if is_space(c) {
            scan(text, pos + 1, closed, Seq::empty())
        } else if c == ',' {
            scan(text, pos + 1, closed.push(TokenView::Comma), Seq::empty())
        } else if c == '(' {
            scan(text, pos + 1, closed.push(TokenView::Open), Seq::empty())
        } else if c == ')' {
            scan(text, pos + 1, closed.push(TokenView::Close), Seq::empty())
        } else if c == '&' {
            scan(text, pos + 1, closed.push(TokenView::Amp), Seq::empty())
        } else if c == '=' && pos + 1 < text.len() && text[pos + 1] == '>' {
            scan(text, pos + 2, closed.push(TokenView::FatArrow), Seq::empty())
        } else if c == ':' && pos + 1 < text.len() && text[pos + 1] == ':' {
            scan(text, pos + 2, closed.push(TokenView::PathSep), Seq::empty())
        } else {
            Err((MalformedDeclaration::UnexpectedCharacter, pos))
        }
    }
}

/// The tokens of `text`, or the first character that belongs to none.
pub open spec fn tokens_of(text: Seq<char>) -> Result<Seq<TokenView>, (MalformedDeclaration, int)> {
    scan(text, 0, Seq::empty(), Seq::empty())
}

fn push_token(tokens: &mut Vec<Token>, token: Token)
    ensures
        views(final(tokens)@) == views(old(tokens)@).push(token@),
{
    tokens.push(token);
    assert(views(tokens@) =~= views(old(tokens)@).push(token@));
}

/// Closes the word `text[start..pos]`, if it is not empty.
fn close_word(tokens: &mut Vec<Token>, text: &str, start: usize, pos: usize)
    requires
        start <= pos <= text@.len(),
    ensures
        views(final(tokens)@) == flush(views(old(tokens)@), text@.subrange(start as int, pos as int)),
{
    if start < pos {
        push_token(tokens, Token::Word(String::from_str(text.substring_char(start, pos))));
    }
}

/// Tests whether `wanted` stands right behind position `pos`.
fn follows(text: &str, len: usize, pos: usize, wanted: char) -> (b: bool)
    requires
        pos < len,
        len == text@.len(),
    ensures
        b == (pos + 1 < text@.len() && text@[pos + 1] == wanted),
{
    pos + 1 < len && text.get_char(pos + 1) == wanted
}

/// Splits a declaration into its tokens.
pub fn tokenize(text: &str) -> (out: Result<Vec<Token>, ParseError>)
    ensures
        (match out {
            Ok(tokens) => tokens_of(text@) == Ok::<Seq<TokenView>, (MalformedDeclaration, int)>(
                views(tokens@),
            ),
            Err(error) => tokens_of(text@) == Err::<Seq<TokenView>, (MalformedDeclaration, int)>(
                error@,
            ),
        }),
{
    let len = text.unicode_len();
    let mut tokens: Vec<Token> = Vec::new();
    let mut start: usize = 0;
    let mut pos: usize = 0;
    assert(views(tokens@) =~= Seq::empty());
    assert(text@.subrange(0, 0) =~= Seq::empty());
    while pos < len
        invariant
            start <= pos <= len,
            len == text@.len(),
            scan(text@, pos as int, views(tokens@), text@.subrange(start as int, pos as int))
                == tokens_of(text@),
        decreases len - pos,
    {
        let c = text.get_char(pos);
        let ghost word = text@.subrange(start as int, pos as int);
        if ('a' <= c && c <= 'z') || ('A' <= c && c <= 'Z') || ('0' <= c && c <= '9') || c == '_'
            || c > '\x7f' {
            assert(text@.subrange(start as int, pos + 1) =~= word.push(c));
            pos += 1;
        } else {
            close_word(&mut tokens, text, start, pos);
            if c == ' ' || c == '\t' || c == '\n' || c == '\r' {
                pos += 1;
            } else if c == ',' {
                push_token(&mut tokens, Token::Comma);
                pos += 1;
            } else if c == '(' {
                push_token(&mut tokens, Token::Open);
                pos += 1;
            } else if c == ')' {
                push_token(&mut tokens, Token::Close);
                pos += 1;
            } else if c == '&' {
                push_token(&mut tokens, Token::Amp);
                pos += 1;
            } else if c == '=' && follows(text, len, pos, '>') {
                push_token(&mut tokens, Token::FatArrow);
                pos += 2;
            } else if c == ':' && follows(text, len, pos, ':') {
                push_token(&mut tokens, Token::PathSep);
                pos += 2;
            } else {
                return Err(ParseError { reason: MalformedDeclaration::UnexpectedCharacter, at: pos });
            }
            start = pos;
            assert(text@.subrange(start as int, pos as int) =~= Seq::empty());
        }
    }
    close_word(&mut tokens, text, start, pos);
    Ok(tokens)
}

/// Whether `token` stands at `pos`.
pub open spec fn is_token(tokens: Seq<TokenView>, pos: int, token: TokenView) -> bool {
    0 <= pos < tokens.len() && tokens[pos] == token
}

/// The identifier at `pos`. A word that is no identifier is refused for
/// `reason`; anything but a word is an unexpected token.
pub open spec fn ident_at(tokens: Seq<TokenView>, pos: int, reason: MalformedDeclaration) -> Result<
    Seq<char>,
    (MalformedDeclaration, int),
> {
    if 0 <= pos < tokens.len() && tokens[pos] is Word {
        if is_identifier(tokens[pos]->Word_0) {
            Ok(tokens[pos]->Word_0)
        } else {
            Err((reason, pos))
        }
    } else {
        Err((MalformedDeclaration::UnexpectedToken, pos))
    }
}

/// The rest of an interface reference after `path`: any number of `::` and
/// identifier. Gives the whole reference and the position behind it.
pub open spec fn path_rest(tokens: Seq<TokenView>, pos: int, path: Seq<Seq<char>>) -> Result<
    (Seq<Seq<char>>, int),
    (MalformedDeclaration, int),
>
    decreases tokens.len() - pos,
{
    if is_token(tokens, pos, TokenView::PathSep) {
        match ident_at(tokens, pos + 1, MalformedDeclaration::InvalidSegment) {
            Ok(segment) => path_rest(tokens, pos + 2, path.push(segment)),
            Err(error) => Err(error),
        }
    } else {
        Ok((path, pos))
    }
}

/// The interface reference at `pos`: identifiers with `::` between them.
pub open spec fn path_at(tokens: Seq<TokenView>, pos: int) -> Result<
    (Seq<Seq<char>>, int),
    (MalformedDeclaration, int),
> {
    match ident_at(tokens, pos, MalformedDeclaration::InvalidSegment) {
        Ok(segment) => path_rest(tokens, pos + 1, seq![segment]),
        Err(error) => Err(error),
    }
}

/// The self-access annotation at `pos`: nothing, `()`, `(self)`, `(&self)`
/// or `(&mut self)`. Gives the mode and the position behind the annotation.
pub open spec fn annotation_at(tokens: Seq<TokenView>, pos: int) -> Result<
    (SelfAccess, int),
    (MalformedDeclaration, int),
> {
    let this = TokenView::Word("self"@);
    let mutable = TokenView::Word("mut"@);
    if !is_token(tokens, pos, TokenView::Open) {
        Ok((SelfAccess::NoReceiver, pos))
    } else if is_token(tokens, pos + 1, TokenView::Close) {
        Ok((SelfAccess::NoReceiver, pos + 2))
    } else if is_token(tokens, pos + 1, this) && is_token(tokens, pos + 2, TokenView::Close) {
        Ok((SelfAccess::ByValue, pos + 3))
    } else if is_token(tokens, pos + 1, TokenView::Amp) && is_token(tokens, pos + 2, this)
        && is_token(tokens, pos + 3, TokenView::Close) {
        Ok((SelfAccess::ByRef, pos + 4))
    } else if is_token(tokens, pos + 1, TokenView::Amp) && is_token(tokens, pos + 2, mutable)
        && is_token(tokens, pos + 3, this) && is_token(tokens, pos + 4, TokenView::Close) {
        Ok((SelfAccess::ByMutRef, pos + 5))
    } else {
        Err((MalformedDeclaration::InvalidSelfAccess, pos + 1))
    }
}

/// The operation at `pos`: its name, then its annotation, then `as` and its
/// alias, the last two optional.
pub open spec fn operation_at(tokens: Seq<TokenView>, pos: int) -> Result<
    (EffectFunctionView, int),
    (MalformedDeclaration, int),
> {
    match ident_at(tokens, pos, MalformedDeclaration::InvalidOperation) {
        Err(error) => Err(error),
        Ok(ident) => match annotation_at(tokens, pos + 1) {
            Err(error) => Err(error),
            Ok((mode, after)) => if is_token(tokens, after, TokenView::Word("as"@)) {
                match ident_at(tokens, after + 1, MalformedDeclaration::InvalidAlias) {
                    Err(error) => Err(error),
                    Ok(alias) => Ok(
                        (
                            EffectFunctionView { ident, alias: Some(alias), self_reference: mode },
                            after + 2,
                        ),
                    ),
                }
            } else {
                Ok((EffectFunctionView { ident, alias: None, self_reference: mode }, after))
            },
        },
    }
}

/// The operations from `pos` up to the closing parenthesis, after
/// `operations`: operations with a comma between them, and one more comma if
/// wanted. Gives all operations and the position behind the parenthesis.
pub open spec fn operations_from(
    tokens: Seq<TokenView>,
    pos: int,
    operations: Seq<EffectFunctionView>,
) -> Result<(Seq<EffectFunctionView>, int), (MalformedDeclaration, int)>
    decreases tokens.len() - pos,
{
    if is_token(tokens, pos, TokenView::Close) {
        Ok((operations, pos + 1))
    } else {
        match operation_at(tokens, pos) {
            Err(error) => Err(error),
            Ok((operation, after)) => if is_token(tokens, after, TokenView::Comma) {
                operations_from(tokens, after + 1, operations.push(operation))
            } else if is_token(tokens, after, TokenView::Close) {
                Ok((operations.push(operation), after + 1))
            } else {
                Err((MalformedDeclaration::UnexpectedToken, after))
            },
        }
    }
}

/// The effect at `pos`: an interface reference and, in parentheses, its
/// operations. The effect is named after the reference's last segment.
pub open spec fn effect_at(tokens: Seq<TokenView>, pos: int) -> Result<
    (EffectView, int),
    (MalformedDeclaration, int),
> {
    match path_at(tokens, pos) {
        Err(error) => Err(error),
        Ok((path, after)) => if !is_token(tokens, after, TokenView::Open) {
            Err((MalformedDeclaration::UnexpectedToken, after))
        } else {
            match operations_from(tokens, after + 1, Seq::empty()) {
                Err(error) => Err(error),
                Ok((functions, end)) => Ok((EffectView { name: path.last(), path, functions }, end)),
            }
        },
    }
}

/// The effects from `pos` to the end, after `effects`: effects with a comma
/// between them, and one more comma if wanted.
pub open spec fn effects_from(tokens: Seq<TokenView>, pos: int, effects: Seq<EffectView>) -> Result<
    Seq<EffectView>,
    (MalformedDeclaration, int),
>
    decreases tokens.len() - pos,
    via effects_from_decreases
{
    if pos >= tokens.len() {
        Ok(effects)
    } else {
        match effect_at(tokens, pos) {
            Err(error) => Err(error),
            Ok((effect, after)) => if after >= tokens.len() {
                Ok(effects.push(effect))
            } else if tokens[after] == TokenView::Comma {
                effects_from(tokens, after + 1, effects.push(effect))
            } else {
                Err((MalformedDeclaration::UnexpectedToken, after))
            },
        }
    }
}

#[via_fn]
proof fn effects_from_decreases(tokens: Seq<TokenView>, pos: int, effects: Seq<EffectView>) {
    lemma_effect_advances(tokens, pos);
}

/// An interface reference's rest ends no earlier than it starts.
pub proof fn lemma_path_rest_advances(tokens: Seq<TokenView>, pos: int, path: Seq<Seq<char>>)
    ensures
        path_rest(tokens, pos, path) matches Ok(rest) ==> rest.1 >= pos,
    decreases tokens.len() - pos,
{
    if is_token(tokens, pos, TokenView::PathSep) {
        match ident_at(tokens, pos + 1, MalformedDeclaration::InvalidSegment) {
            Ok(segment) => {
                lemma_path_rest_advances(tokens, pos + 2, path.push(segment));
            },
            Err(_) => {},
        }
    }
}

/// An effect takes at least one token.
pub proof fn lemma_effect_advances(tokens: Seq<TokenView>, pos: int)
    ensures
        effect_at(tokens, pos) matches Ok(effect) ==> effect.1 > pos,
{
    match ident_at(tokens, pos, MalformedDeclaration::InvalidSegment) {
        Ok(segment) => {
            lemma_path_rest_advances(tokens, pos + 1, seq![segment]);
            match path_at(tokens, pos) {
                Ok((path, after)) => {
                    if is_token(tokens, after, TokenView::Open) {
                        lemma_operations_advance(tokens, after + 1, Seq::empty());
                    }
                },
                Err(_) => {},
            }
        },
        Err(_) => {},
    }
}

/// A list of operations ends behind where it starts.
pub proof fn lemma_operations_advance(
    tokens: Seq<TokenView>,
    pos: int,
    operations: Seq<EffectFunctionView>,
)
    ensures
        operations_from(tokens, pos, operations) matches Ok(list) ==> list.1 > pos,
    decreases tokens.len() - pos,
{
    if !is_token(tokens, pos, TokenView::Close) {
        match operation_at(tokens, pos) {
            Ok((operation, after)) => {
                if is_token(tokens, after, TokenView::Comma) {
                    lemma_operations_advance(tokens, after + 1, operations.push(operation));
                }
            },
            Err(_) => {},
        }
    }
}

/// The declaration that `tokens` spell: a name and `=>` where the second
/// token is `=>`, then the effects.
pub open spec fn declaration_at(tokens: Seq<TokenView>) -> Result<ArgsView, (MalformedDeclaration, int)> {
    if is_token(tokens, 1, TokenView::FatArrow) {
        match ident_at(tokens, 0, MalformedDeclaration::InvalidName) {
            Err(error) => Err(error),
            Ok(name) => match effects_from(tokens, 2, Seq::empty()) {
                Err(error) => Err(error),
                Ok(effects) => Ok(ArgsView { name: Some(name), effects }),
            },
        }
    } else {
        match effects_from(tokens, 0, Seq::empty()) {
            Err(error) => Err(error),
            Ok(effects) => Ok(ArgsView { name: None, effects }),
        }
    }
}

/// The declaration that `text` spells, or where and why it spells none.
pub open spec fn declaration_of(text: Seq<char>) -> Result<ArgsView, (MalformedDeclaration, int)> {
    match tokens_of(text) {
        Err(error) => Err(error),
        Ok(tokens) => declaration_at(tokens),
    }
}

/// Tests whether `wanted` stands at `pos`.
fn holds(tokens: &Vec<Token>, pos: usize, wanted: &Token) -> (b: bool)
    ensures
        b == is_token(views(tokens@), pos as int, wanted@),
        b ==> pos < tokens@.len(),
{
    if pos >= tokens.len() {
        return false;
    }
    assert(views(tokens@)[pos as int] == tokens@[pos as int]@);
    match (&tokens[pos], wanted) {
        (Token::Word(found), Token::Word(word)) => *found == *word,
        (Token::FatArrow, Token::FatArrow) => true,
        (Token::PathSep, Token::PathSep) => true,
        (Token::Comma, Token::Comma) => true,
        (Token::Open, Token::Open) => true,
        (Token::Close, Token::Close) => true,
        (Token::Amp, Token::Amp) => true,
        _ => false,
    }
}

fn word(text: &str) -> (token: Token)
    ensures
        token@ == TokenView::Word(text@),
{
    Token::Word(String::from_str(text))
}

fn read_ident(tokens: &Vec<Token>, pos: usize, reason: MalformedDeclaration) -> (out: Result<
    String,
    ParseError,
>)
    ensures
        (match out {
            Ok(ident) => ident_at(views(tokens@), pos as int, reason) == Ok::<
                Seq<char>,
                (MalformedDeclaration, int),
            >(ident@) && is_identifier(ident@) && pos < tokens@.len(),
            Err(error) => ident_at(views(tokens@), pos as int, reason) == Err::<
                Seq<char>,
                (MalformedDeclaration, int),
            >(error@),
        }),
{
    if pos < tokens.len() {
        assert(views(tokens@)[pos as int] == tokens@[pos as int]@);
        if let Token::Word(text) = &tokens[pos] {
            if check_identifier(text.as_str()) {
                return Ok(text.clone());
            } else {
                return Err(ParseError { reason, at: pos });
            }
        }
    }
    Err(ParseError { reason: MalformedDeclaration::UnexpectedToken, at: pos })
}

fn read_path(tokens: &Vec<Token>, pos: usize) -> (out: Result<(Path, usize), ParseError>)
    ensures
        (match out {
            Ok((path, after)) => path_at(views(tokens@), pos as int) == Ok::<
                (Seq<Seq<char>>, int),
                (MalformedDeclaration, int),
            >((path@, after as int)) && pos < after <= tokens@.len() && path@.len() > 0
                && forall|i: int| 0 <= i < path@.len() ==> is_identifier(#[trigger] path@[i]),
            Err(error) => path_at(views(tokens@), pos as int) == Err::<
                (Seq<Seq<char>>, int),
                (MalformedDeclaration, int),
            >(error@),
        }),
{
    let ghost spelled = views(tokens@);
    let len = tokens.len();
    let first = match read_ident(tokens, pos, MalformedDeclaration::InvalidSegment) {
        Ok(first) => first,
        Err(error) => {
            return Err(error);
        },
    };
    let mut segments: Vec<String> = Vec::new();
    segments.push(first);
    assert(views(segments@) =~= seq![first@]);
    let mut after: usize = pos + 1;
    while holds(tokens, after, &Token::PathSep)
        invariant
            spelled == views(tokens@),
            len == tokens@.len(),
            pos < after <= tokens@.len(),
            segments@.len() > 0,
            forall|i: int| 0 <= i < segments@.len() ==> is_identifier(#[trigger] views(segments@)[i]),
            path_rest(spelled, after as int, views(segments@)) == path_at(spelled, pos as int),
        decreases tokens@.len() - after,
    {
        match read_ident(tokens, after + 1, MalformedDeclaration::InvalidSegment) {
            Ok(segment) => {
                let ghost before = views(segments@);
                segments.push(segment);
                assert(views(segments@) =~= before.push(segment@));
                after += 2;
            },
            Err(error) => {
                return Err(error);
            },
        }
    }
    Ok((Path { segments }, after))
}

fn read_annotation(tokens: &Vec<Token>, pos: usize) -> (out: Result<(SelfAccess, usize), ParseError>)
    requires
        pos <= tokens@.len(),
    ensures
        (match out {
            Ok((mode, after)) => annotation_at(views(tokens@), pos as int) == Ok::<
                (SelfAccess, int),
                (MalformedDeclaration, int),
            >((mode, after as int)) && pos <= after <= tokens@.len(),
            Err(error) => annotation_at(views(tokens@), pos as int) == Err::<
                (SelfAccess, int),
                (MalformedDeclaration, int),
            >(error@),
        }),
{
    let len = tokens.len();
    let this = word("self");
    let mutable = word("mut");
    if !holds(tokens, pos, &Token::Open) {
        Ok((SelfAccess::NoReceiver, pos))
    } else if holds(tokens, pos + 1, &Token::Close) {
        Ok((SelfAccess::NoReceiver, pos + 2))
    } else if holds(tokens, pos + 1, &this) && holds(tokens, pos + 2, &Token::Close) {
        Ok((SelfAccess::ByValue, pos + 3))
    } else if holds(tokens, pos + 1, &Token::Amp) && holds(tokens, pos + 2, &this) && holds(
        tokens,
        pos + 3,
        &Token::Close,
    ) {
        Ok((SelfAccess::ByRef, pos + 4))
    } else if holds(tokens, pos + 1, &Token::Amp) && holds(tokens, pos + 2, &mutable) && holds(
        tokens,
        pos + 3,
        &this,
    ) && holds(tokens, pos + 4, &Token::Close) {
        Ok((SelfAccess::ByMutRef, pos + 5))
    } else {
        Err(ParseError { reason: MalformedDeclaration::InvalidSelfAccess, at: pos + 1 })
    }
}

impl EffectFunction {
    /// Reads one operation from `tokens` at `pos`, and says where it ends.
    pub fn parse(tokens: &Vec<Token>, pos: usize) -> (out: Result<(EffectFunction, usize), ParseError>)
        ensures
            (match out {
                Ok((operation, after)) => operation_at(views(tokens@), pos as int) == Ok::<
                    (EffectFunctionView, int),
                    (MalformedDeclaration, int),
                >((operation@, after as int)) && pos < after <= tokens@.len() && operation@.wf(),
                Err(error) => operation_at(views(tokens@), pos as int) == Err::<
                    (EffectFunctionView, int),
                    (MalformedDeclaration, int),
                >(error@),
            }),
    {
        let len = tokens.len();
        let ident = match read_ident(tokens, pos, MalformedDeclaration::InvalidOperation) {
            Ok(ident) => ident,
            Err(error) => {
                return Err(error);
            },
        };
        let (self_reference, after) = match read_annotation(tokens, pos + 1) {
            Ok(read) => read,
            Err(error) => {
                return Err(error);
            },
        };
        if holds(tokens, after, &word("as")) {
            match read_ident(tokens, after + 1, MalformedDeclaration::InvalidAlias) {
                Ok(alias) => Ok((EffectFunction { ident, alias: Some(alias), self_reference }, after + 2)),
                Err(error) => Err(error),
            }
        } else {
            Ok((EffectFunction { ident, alias: None, self_reference }, after))
        }
    }
}

fn read_operations(tokens: &Vec<Token>, pos: usize) -> (out: Result<
    (Vec<EffectFunction>, usize),
    ParseError,
>)
    ensures
        (match out {
            Ok((operations, after)) => operations_from(views(tokens@), pos as int, Seq::empty())
                == Ok::<(Seq<EffectFunctionView>, int), (MalformedDeclaration, int)>(
                (views(operations@), after as int),
            ) && pos < after <= tokens@.len() && forall|f: int|
                0 <= f < operations@.len() ==> (#[trigger] views(operations@)[f]).wf(),
            Err(error) => operations_from(views(tokens@), pos as int, Seq::empty()) == Err::<
                (Seq<EffectFunctionView>, int),
                (MalformedDeclaration, int),
            >(error@),
        }),
{
    let ghost spelled = views(tokens@);
    let len = tokens.len();
    let mut operations: Vec<EffectFunction> = Vec::new();
    let mut at: usize = pos;
    assert(views(operations@) =~= Seq::empty());
    loop
        invariant
            spelled == views(tokens@),
            len == tokens@.len(),
            pos <= at,
            forall|f: int| 0 <= f < operations@.len() ==> (#[trigger] views(operations@)[f]).wf(),
            operations_from(spelled, at as int, views(operations@)) == operations_from(
                spelled,
                pos as int,
                Seq::empty(),
            ),
        decreases tokens@.len() - at,
    {
        if holds(tokens, at, &Token::Close) {
            return Ok((operations, at + 1));
        }
        let (operation, after) = match EffectFunction::parse(tokens, at) {
            Ok(read) => read,
            Err(error) => {
                return Err(error);
            },
        };
        let ghost before = views(operations@);
        if holds(tokens, after, &Token::Comma) {
            operations.push(operation);
            assert(views(operations@) =~= before.push(operation@));
            at = after + 1;
        } else if holds(tokens, after, &Token::Close) {
            operations.push(operation);
            assert(views(operations@) =~= before.push(operation@));
            return Ok((operations, after + 1));
        } else {
            return Err(ParseError { reason: MalformedDeclaration::UnexpectedToken, at: after });
        }
    }
}

impl Effect {
    /// Reads one effect from `tokens` at `pos`, and says where it ends.
    pub fn parse(tokens: &Vec<Token>, pos: usize) -> (out: Result<(Effect, usize), ParseError>)
        ensures
            (match out {
                Ok((effect, after)) => effect_at(views(tokens@), pos as int) == Ok::<
                    (EffectView, int),
                    (MalformedDeclaration, int),
                >((effect@, after as int)) && pos < after <= tokens@.len() && effect@.wf(),
                Err(error) => effect_at(views(tokens@), pos as int) == Err::<
                    (EffectView, int),
                    (MalformedDeclaration, int),
                >(error@),
            }),
    {
        let len = tokens.len();
        let (path, open) = match read_path(tokens, pos) {
            Ok(read) => read,
            Err(error) => {
                return Err(error);
            },
        };
        if !holds(tokens, open, &Token::Open) {
            return Err(ParseError { reason: MalformedDeclaration::UnexpectedToken, at: open });
        }
        let (functions, after) = match read_operations(tokens, open + 1) {
            Ok(read) => read,
            Err(error) => {
                return Err(error);
            },
        };
        let name = path.segments[path.segments.len() - 1].clone();
        assert(name@ == path@.last());
        Ok((Effect { name, path, functions }, after))
    }
}

fn read_effects(tokens: &Vec<Token>, pos: usize) -> (out: Result<Vec<Effect>, ParseError>)
    ensures
        (match out {
            Ok(effects) => effects_from(views(tokens@), pos as int, Seq::empty()) == Ok::<
                Seq<EffectView>,
                (MalformedDeclaration, int),
            >(views(effects@)) && forall|i: int|
                0 <= i < effects@.len() ==> (#[trigger] views(effects@)[i]).wf(),
            Err(error) => effects_from(views(tokens@), pos as int, Seq::empty()) == Err::<
                Seq<EffectView>,
                (MalformedDeclaration, int),
            >(error@),
        }),
{
    let ghost spelled = views(tokens@);
    let mut effects: Vec<Effect> = Vec::new();
    let mut at: usize = pos;
    assert(views(effects@) =~= Seq::empty());
    while at < tokens.len()
        invariant
            spelled == views(tokens@),
            forall|i: int| 0 <= i < effects@.len() ==> (#[trigger] views(effects@)[i]).wf(),
            effects_from(spelled, at as int, views(effects@)) == effects_from(
                spelled,
                pos as int,
                Seq::empty(),
            ),
        decreases tokens@.len() - at,
    {
        let (effect, after) = match Effect::parse(tokens, at) {
            Ok(read) => read,
            Err(error) => {
                return Err(error);
            },
        };
        let ghost before = views(effects@);
        effects.push(effect);
        assert(views(effects@) =~= before.push(effect@));
        if after >= tokens.len() {
            return Ok(effects);
        } else if holds(tokens, after, &Token::Comma) {
            at = after + 1;
        } else {
            return Err(ParseError { reason: MalformedDeclaration::UnexpectedToken, at: after });
        }
    }
    Ok(effects)
}

impl Args {
    /// Reads a declaration from its written form. What is read is well
    /// formed; what cannot be read is reported with the place at which
    /// reading stopped.
    pub fn parse(text: &str) -> (out: Result<Args, ParseError>)
        ensures
            (match out {
                Ok(args) => declaration_of(text@) == Ok::<ArgsView, (MalformedDeclaration, int)>(
                    args@,
                ) && args@.wf(),
                Err(error) => declaration_of(text@) == Err::<ArgsView, (MalformedDeclaration, int)>(
                    error@,
                ),
            }),
    {
        let tokens = match tokenize(text) {
            Ok(tokens) => tokens,
            Err(error) => {
                return Err(error);
            },
        };
        let named = holds(&tokens, 1, &Token::FatArrow);
        let name = if named {
            match read_ident(&tokens, 0, MalformedDeclaration::InvalidName) {
                Ok(name) => Some(name),
                Err(error) => {
                    return Err(error);
                },
            }
        } else {
            None
        };
        let start: usize = if named {
            2
        } else {
            0
        };
        match read_effects(&tokens, start) {
            Ok(effects) => {
                let args = Args { name, effects };
                assert(args@.effects == views(effects@));
                Ok(args)
            },
            Err(error) => Err(error),
        }
    }
}

} // verus!
