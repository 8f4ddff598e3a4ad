//! The declaration model: effects, their operations, and how each operation
//! receives its handler.

use vstd::prelude::*;
use vstd::string::*;

verus! {

/// The views of the items of a sequence, item by item.
pub open spec fn views<T: View>(items: Seq<T>) -> Seq<T::V> {
    Seq::new(items.len(), |i: int| items[i]@)
}

/// Whether `c` may stand in a name: an ASCII letter or digit, `_`, or any
/// character outside ASCII.
pub open spec fn is_name_char(c: char) -> bool {
    ||| 'a' <= c <= 'z'
    ||| 'A' <= c <= 'Z'
    ||| '0' <= c <= '9'
    ||| c == '_'
    ||| c > '\x7f'
}

/// Whether `text` is an identifier: not empty, made of name characters, and
/// not starting with a digit.
pub open spec fn is_identifier(text: Seq<char>) -> bool {
    &&& text.len() > 0
    &&& !('0' <= text[0] <= '9')
    &&& forall|i: int| 0 <= i < text.len() ==> is_name_char(#[trigger] text[i])
}

/// Why a declaration is refused.
#[derive(Clone, Copy, PartialEq, Eq, Structural, Debug)]
pub enum MalformedDeclaration {
    /// The interface reference has no segment, so the effect has no name.
    EmptyPath,
    /// A segment of the interface reference is no identifier.
    InvalidSegment,
    /// An operation's name is no identifier.
    InvalidOperation,
    /// An operation's alias is no identifier.
    InvalidAlias,
    /// The program's name is no identifier.
    InvalidName,
    /// A self-access annotation is none of `self`, `&self`, `&mut self` or
    /// nothing.
    InvalidSelfAccess,
    /// The text holds a character that belongs to no token.
    UnexpectedCharacter,
    /// A token stands where the grammar has no place for it, or the text
    /// ends where a token must follow.
    UnexpectedToken,
}

/// Tests whether `text` is an identifier.
pub fn check_identifier(text: &str) -> (ok: bool)
    ensures
        ok == is_identifier(text@),
{
    let len = text.unicode_len();
    if len == 0 {
        return false;
    }
    let first = text.get_char(0);
    if '0' <= first && first <= '9' {
        return false;
    }
    let mut i: usize = 0;
    while i < len
        invariant
            i <= len,
            len == text@.len(),
            forall|j: int| 0 <= j < i ==> is_name_char(#[trigger] text@[j]),
        decreases len - i,
    {
        let c = text.get_char(i);
        let ok = ('a' <= c && c <= 'z') || ('A' <= c && c <= 'Z') || ('0' <= c && c <= '9') || c
            == '_' || c > '\x7f';
        if !ok {
            return false;
        }
        i += 1;
    }
    true
}

/// How an operation receives the handler that serves it.
#[derive(Clone, Copy, PartialEq, Eq, Structural, Debug)]
pub enum SelfAccess {
    /// The operation takes no handler: no receiver is passed.
    NoReceiver,
    /// The handler is passed by value (`self`).
    ByValue,
    /// The handler is passed by shared borrow (`&self`).
    ByRef,
    /// The handler is passed by mutable borrow (`&mut self`).
    ByMutRef,
}

/// A reference to an interface: one or more segments, `a::b::Interface`.
#[derive(Debug, PartialEq, Eq)]
pub struct Path {
    pub segments: Vec<String>,
}

impl View for Path {
    type V = Seq<Seq<char>>;

    open spec fn view(&self) -> Seq<Seq<char>> {
        views(self.segments@)
    }
}

impl Path {
    /// The name that an effect takes from its interface: the last segment.
    /// A reference without segments gives none.
    pub fn default_name(&self) -> (out: Option<String>)
        ensures
            self@.len() == 0 ==> out.is_none(),
            self@.len() > 0 ==> out.is_some() && out.unwrap()@ == self@.last(),
    {
        let n = self.segments.len();
        if n == 0 {
            None
        } else {
            Some(self.segments[n - 1].clone())
        }
    }
}

impl Clone for Path {
    fn clone(&self) -> (out: Self)
        ensures
            out@ == self@,
    {
        let out = Path { segments: self.segments.clone() };
        assert(out@ =~= self@);
        out
    }
}

/// One operation of an effect.
#[derive(Debug, PartialEq, Eq)]
pub struct EffectFunction {
    /// The operation's name in its interface.
    pub ident: String,
    /// The name under which call sites use it, where that differs.
    pub alias: Option<String>,
    pub self_reference: SelfAccess,
}

pub struct EffectFunctionView {
    pub ident: Seq<char>,
    pub alias: Option<Seq<char>>,
    pub self_reference: SelfAccess,
}

impl EffectFunctionView {
    /// The name that call sites use: the alias where there is one, else the
    /// operation's own name.
    pub open spec fn call_name(self) -> Seq<char> {
        match self.alias {
            Some(alias) => alias,
            None => self.ident,
        }
    }

    /// What is wrong with the operation, if anything: its name must be an
    /// identifier, and so must its alias where it has one.
    pub open spec fn verdict(self) -> Result<(), MalformedDeclaration> {
        if !is_identifier(self.ident) {
            Err(MalformedDeclaration::InvalidOperation)
        } else if self.alias.is_some() && !is_identifier(self.alias.unwrap()) {
            Err(MalformedDeclaration::InvalidAlias)
        } else {
            Ok(())
        }
    }

    /// The operation's name is an identifier, and so is its alias.
    pub open spec fn wf(self) -> bool {
        &&& is_identifier(self.ident)
        &&& self.alias.is_some() ==> is_identifier(self.alias.unwrap())
    }
}

impl EffectFunction {
    /// Validates the operation.
    pub fn check(&self) -> (out: Result<(), MalformedDeclaration>)
        ensures
            out == self@.verdict(),
            out.is_ok() <==> self@.wf(),
    {
        if !check_identifier(self.ident.as_str()) {
            return Err(MalformedDeclaration::InvalidOperation);
        }
        let alias_ok = match &self.alias {
            Some(alias) => check_identifier(alias.as_str()),
            None => true,
        };
        if !alias_ok {
            return Err(MalformedDeclaration::InvalidAlias);
        }
        Ok(())
    }

    /// Declares an operation, or says what is wrong with it.
    pub fn new(ident: String, alias: Option<String>, self_reference: SelfAccess) -> (out: Result<
        EffectFunction,
        MalformedDeclaration,
    >)
        ensures
            out.is_ok() <==> (EffectFunction { ident, alias, self_reference })@.wf(),
            (match out {
                Ok(operation) => operation.ident == ident && operation.alias == alias
                    && operation.self_reference == self_reference && operation@.wf(),
                Err(error) => Err::<(), MalformedDeclaration>(error) == (EffectFunction {
                    ident,
                    alias,
                    self_reference,
                })@.verdict(),
            }),
    {
        let operation = EffectFunction { ident, alias, self_reference };
        match operation.check() {
            Ok(_) => Ok(operation),
            Err(error) => Err(error),
        }
    }
}

impl View for EffectFunction {
    type V = EffectFunctionView;

    open spec fn view(&self) -> EffectFunctionView {
        EffectFunctionView {
            ident: self.ident@,
            alias: match self.alias {
                Some(alias) => Some(alias@),
                None => None,
            },
            self_reference: self.self_reference,
        }
    }
}

/// One declared effect: an interface and the operations used from it.
#[derive(Debug, PartialEq, Eq)]
pub struct Effect {
    /// The display name: the last segment of `path`.
    pub name: String,
    pub path: Path,
    pub functions: Vec<EffectFunction>,
}

pub struct EffectView {
    pub name: Seq<char>,
    pub path: Seq<Seq<char>>,
    pub functions: Seq<EffectFunctionView>,
}

impl View for Effect {
    type V = EffectView;

    open spec fn view(&self) -> EffectView {
        EffectView { name: self.name@, path: self.path@, functions: views(self.functions@) }
    }
}

/// Operation `f` is the first of `functions` that is not well formed.
pub open spec fn is_first_ill_formed(functions: Seq<EffectFunctionView>, f: int) -> bool {
    &&& 0 <= f < functions.len()
    &&& !functions[f].wf()
    &&& forall|g: int| 0 <= g < f ==> (#[trigger] functions[g]).wf()
}

impl EffectView {
    /// What is wrong with the effect, if anything. The interface reference
    /// must have a segment, and all its segments must be identifiers; so must
    /// the effect's name; and every operation must be well formed. Of
    /// several defects the first in this order is reported, and of several
    /// ill-formed operations the first.
    pub open spec fn verdict(self) -> Result<(), MalformedDeclaration> {
        if self.path.len() == 0 {
            Err(MalformedDeclaration::EmptyPath)
        } else if exists|i: int| 0 <= i < self.path.len() && !is_identifier(#[trigger] self.path[i]) {
            Err(MalformedDeclaration::InvalidSegment)
        } else if !is_identifier(self.name) {
            Err(MalformedDeclaration::InvalidName)
        } else if exists|f: int| is_first_ill_formed(self.functions, f) {
            self.functions[choose|f: int| is_first_ill_formed(self.functions, f)].verdict()
        } else {
            Ok(())
        }
    }

    /// The interface reference has at least one segment, all of them
    /// identifiers; the effect's name is an identifier; and every operation is
    /// well formed.
    pub open spec fn wf(self) -> bool {
        &&& self.path.len() > 0
        &&& forall|i: int| 0 <= i < self.path.len() ==> is_identifier(#[trigger] self.path[i])
        &&& is_identifier(self.name)
        &&& forall|f: int| 0 <= f < self.functions.len() ==> (#[trigger] self.functions[f]).wf()
    }

    /// Operation `f` is the first that is called as `name`.
    pub open spec fn is_first_called(self, name: Seq<char>, f: int) -> bool {
        &&& 0 <= f < self.functions.len()
        &&& self.functions[f].call_name() == name
        &&& forall|g: int| 0 <= g < f ==> (#[trigger] self.functions[g]).call_name() != name
    }
}

impl Effect {
    /// Validates the effect.
    pub fn check(&self) -> (out: Result<(), MalformedDeclaration>)
        ensures
            out == self@.verdict(),
            out.is_ok() <==> self@.wf(),
    {
        if self.path.segments.len() == 0 {
            return Err(MalformedDeclaration::EmptyPath);
        }
        let mut i: usize = 0;
        while i < self.path.segments.len()
            invariant
                i <= self.path.segments@.len(),
                forall|j: int| 0 <= j < i ==> is_identifier(#[trigger] self@.path[j]),
            decreases self.path.segments@.len() - i,
        {
            if !check_identifier(self.path.segments[i].as_str()) {
                assert(!is_identifier(self@.path[i as int]));
                return Err(MalformedDeclaration::InvalidSegment);
            }
            i += 1;
        }
        if !check_identifier(self.name.as_str()) {
            return Err(MalformedDeclaration::InvalidName);
        }
        let mut f: usize = 0;
        while f < self.functions.len()
            invariant
                f <= self.functions@.len(),
                self@.path.len() > 0,
                forall|j: int| 0 <= j < self@.path.len() ==> is_identifier(#[trigger] self@.path[j]),
                is_identifier(self@.name),
                forall|g: int| 0 <= g < f ==> (#[trigger] self@.functions[g]).wf(),
            decreases self.functions@.len() - f,
        {
            let checked = self.functions[f].check();
            assert(self.functions@[f as int]@ == self@.functions[f as int]);
            if let Err(error) = checked {
                proof {
                    assert(is_first_ill_formed(self@.functions, f as int));
                    let c = choose|c: int| is_first_ill_formed(self@.functions, c);
                    assert(is_first_ill_formed(self@.functions, c));
                    assert(c == f);
                }
                return Err(error);
            }
            f += 1;
        }
        Ok(())
    }

    /// Declares an effect over the interface `path`, named after the last
    /// segment of `path`, or says what is wrong with it.
    pub fn new(path: Path, functions: Vec<EffectFunction>) -> (out: Result<Effect, MalformedDeclaration>)
        ensures
            out.is_ok() <==> path@.len() > 0 && (EffectView {
                name: path@.last(),
                path: path@,
                functions: views(functions@),
            }).wf(),
            (match out {
                Ok(effect) => effect.path == path && effect.functions == functions
                    && effect@.name == path@.last() && effect@.wf(),
                Err(error) => Err::<(), MalformedDeclaration>(error) == (EffectView {
                    name: if path@.len() > 0 {
                        path@.last()
                    } else {
                        Seq::empty()
                    },
                    path: path@,
                    functions: views(functions@),
                }).verdict(),
            }),
    {
        let name = match path.default_name() {
            Some(name) => name,
            None => {
                return Err(MalformedDeclaration::EmptyPath);
            },
        };
        let effect = Effect { name, path, functions };
        match effect.check() {
            Ok(_) => Ok(effect),
            Err(error) => Err(error),
        }
    }

    /// Looks an operation up by the name that call sites use for it: the
    /// first one called `name`, if there is any.
    pub fn find(&self, name: &str) -> (out: Option<usize>)
        ensures
            out.is_none() <==> forall|f: int|
                0 <= f < self@.functions.len() ==> (#[trigger] self@.functions[f]).call_name()
                    != name@,
            out.is_some() ==> self@.is_first_called(name@, out.unwrap() as int),
    {
        let wanted = String::from_str(name);
        let mut f: usize = 0;
        while f < self.functions.len()
            invariant
                f <= self.functions@.len(),
                wanted@ == name@,
                forall|g: int| 0 <= g < f ==> (#[trigger] self@.functions[g]).call_name() != name@,
            decreases self.functions@.len() - f,
        {
            let func = &self.functions[f];
            assert(func@ == self@.functions[f as int]);
            let called = match &func.alias {
                Some(alias) => *alias == wanted,
                None => func.ident == wanted,
            };
            if called {
                return Some(f);
            }
            f += 1;
        }
        None
    }
}

/// A whole declaration: the program's name, if given, and its effects in the
/// order in which their handlers are attached.
#[derive(Debug, PartialEq, Eq)]
pub struct Args {
    pub name: Option<String>,
    pub effects: Vec<Effect>,
}

pub struct ArgsView {
    pub name: Option<Seq<char>>,
    pub effects: Seq<EffectView>,
}

impl View for Args {
    type V = ArgsView;

    open spec fn view(&self) -> ArgsView {
        ArgsView {
            name: match self.name {
                Some(name) => Some(name@),
                None => None,
            },
            effects: views(self.effects@),
        }
    }
}

/// Effect `i` is the first of `effects` that is not well formed.
pub open spec fn is_first_ill_formed_effect(effects: Seq<EffectView>, i: int) -> bool {
    &&& 0 <= i < effects.len()
    &&& !effects[i].wf()
    &&& forall|j: int| 0 <= j < i ==> (#[trigger] effects[j]).wf()
}

impl ArgsView {
    /// What is wrong with the declaration, if anything: its name, where it
    /// has one, must be an identifier, and every effect must be well formed.
    /// A bad name is reported first, then the first ill-formed effect.
    pub open spec fn verdict(self) -> Result<(), MalformedDeclaration> {
        if self.name.is_some() && !is_identifier(self.name.unwrap()) {
            Err(MalformedDeclaration::InvalidName)
        } else if exists|i: int| is_first_ill_formed_effect(self.effects, i) {
            self.effects[choose|i: int| is_first_ill_formed_effect(self.effects, i)].verdict()
        } else {
            Ok(())
        }
    }

    /// The name, where there is one, is an identifier, and every effect is
    /// well formed.
    pub open spec fn wf(self) -> bool {
        &&& self.name.is_some() ==> is_identifier(self.name.unwrap())
        &&& forall|i: int| 0 <= i < self.effects.len() ==> (#[trigger] self.effects[i]).wf()
    }
}

impl Args {
    /// Validates the declaration.
    pub fn check(&self) -> (out: Result<(), MalformedDeclaration>)
        ensures
            out == self@.verdict(),
            out.is_ok() <==> self@.wf(),
    {
        let name_ok = match &self.name {
            Some(name) => check_identifier(name.as_str()),
            None => true,
        };
        if !name_ok {
            return Err(MalformedDeclaration::InvalidName);
        }
        let mut i: usize = 0;
        while i < self.effects.len()
            invariant
                i <= self.effects@.len(),
                self@.name.is_some() ==> is_identifier(self@.name.unwrap()),
                forall|j: int| 0 <= j < i ==> (#[trigger] self@.effects[j]).wf(),
            decreases self.effects@.len() - i,
        {
            let checked = self.effects[i].check();
            assert(self.effects@[i as int]@ == self@.effects[i as int]);
            if let Err(error) = checked {
                proof {
                    assert(is_first_ill_formed_effect(self@.effects, i as int));
                    let c = choose|c: int| is_first_ill_formed_effect(self@.effects, c);
                    assert(is_first_ill_formed_effect(self@.effects, c));
                    assert(c == i);
                }
                return Err(error);
            }
            i += 1;
        }
        Ok(())
    }

    /// Puts a declaration together, or says what is wrong with it.
    pub fn new(name: Option<String>, effects: Vec<Effect>) -> (out: Result<Args, MalformedDeclaration>)
        ensures
            out.is_ok() <==> (Args { name, effects })@.wf(),
            (match out {
                Ok(args) => args.name == name && args.effects == effects && args@.wf(),
                Err(error) => Err::<(), MalformedDeclaration>(error) == (Args { name, effects })@.verdict(),
            }),
    {
        let args = Args { name, effects };
        match args.check() {
            Ok(_) => Ok(args),
            Err(error) => Err(error),
        }
    }
}

} // verus!
