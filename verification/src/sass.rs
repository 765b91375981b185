//! The parsed, not yet evaluated, form of a stylesheet.
use vstd::prelude::*;
use std::rc::Rc;

verus! {

/// A span of the source text, as byte offsets into the file `file`.
#[derive(Clone, Copy, PartialEq, Eq, Structural, Debug)]
pub struct SourcePos {
    pub file: usize,
    pub start: usize,
    pub end: usize,
}

/// How a string is quoted.
#[derive(Clone, Copy, PartialEq, Eq, Structural, Debug)]
pub enum Quotes {
    NoQuotes,
    Double,
    Single,
}

/// How the items of a list are separated.
#[derive(Clone, Copy, PartialEq, Eq, Structural, Debug)]
pub enum ListSep {
    Space,
    Comma,
}

/// A number: a fixed point value with ten decimals (`value / 10^10`)
/// and a unit, which is empty for a plain number.
#[derive(Debug, PartialEq, Eq)]
pub struct Number {
    pub value: i128,
    pub unit: Vec<u8>,
}

/// One part of a string: literal text or an interpolated value.
#[derive(Debug, PartialEq, Eq)]
pub enum StringPart {
    Raw(Vec<u8>),
    Interpolation(Value),
}

/// A string that may hold interpolations.
#[derive(Debug, PartialEq, Eq)]
pub struct SassString {
    pub parts: Vec<StringPart>,
    pub quotes: Quotes,
}

/// An argument in a call: an optional name and a value.
#[derive(Debug, PartialEq, Eq)]
pub struct CallArg {
    pub name: Option<Vec<u8>>,
    pub value: Value,
}

/// A value expression.
#[derive(Debug, PartialEq, Eq)]
pub enum Value {
    Null,
    True,
    False,
    Numeric(Number),
    Literal(SassString),
    Variable(Vec<u8>, SourcePos),
    Call(Vec<u8>, Vec<CallArg>, SourcePos),
    Plus(Box<Value>, Box<Value>),
    List(Vec<Value>, ListSep),
}

// ---- views ----

pub struct NumberV {
    pub value: i128,
    pub unit: Seq<u8>,
}

pub enum StringPartV {
    Raw(Seq<u8>),
    Interpolation(ValueV),
}

pub struct SassStringV {
    pub parts: Seq<StringPartV>,
    pub quotes: Quotes,
}

pub struct CallArgV {
    pub name: Option<Seq<u8>>,
    pub value: ValueV,
}

pub enum ValueV {
    Null,
    True,
    False,
    Numeric(NumberV),
    Literal(SassStringV),
    Variable(Seq<u8>, SourcePos),
    Call(Seq<u8>, Seq<CallArgV>, SourcePos),
    Plus(Box<ValueV>, Box<ValueV>),
    List(Seq<ValueV>, ListSep),
}

impl View for Number {
    type V = NumberV;

    open spec fn view(&self) -> NumberV {
        NumberV { value: self.value, unit: self.unit@ }
    }
}

pub open spec fn opt_bytes_view(o: Option<Vec<u8>>) -> Option<Seq<u8>> {
    match o {
        Some(v) => Some(v@),
        None => None,
    }
}

impl StringPart {
    pub open spec fn view(&self) -> StringPartV
        decreases self,
    {
        match self {
            StringPart::Raw(b) => StringPartV::Raw(b@),
            StringPart::Interpolation(v) => StringPartV::Interpolation(v.view()),
        }
    }
}

impl SassString {
    pub open spec fn view(&self) -> SassStringV
        decreases self,
    {
        SassStringV {
            parts: Seq::new(
                self.parts.len() as nat,
                |i: int|
                    if 0 <= i < self.parts.len() {
                        self.parts@[i].view()
                    } else {
                        StringPartV::Raw(Seq::empty())
                    },
            ),
            quotes: self.quotes,
        }
    }
}

impl CallArg {
    pub open spec fn view(&self) -> CallArgV
        decreases self,
    {
        CallArgV { name: opt_bytes_view(self.name), value: self.value.view() }
    }
}

impl Value {
    pub open spec fn view(&self) -> ValueV
        decreases self,
    {
        match self {
            Value::Null => ValueV::Null,
            Value::True => ValueV::True,
            Value::False => ValueV::False,
            Value::Numeric(n) => ValueV::Numeric(n@),
            Value::Literal(s) => ValueV::Literal(s.view()),
            Value::Variable(n, p) => ValueV::Variable(n@, *p),
            Value::Call(n, args, p) => ValueV::Call(
                n@,
                Seq::new(
                    args.len() as nat,
                    |i: int|
                        if 0 <= i < args.len() {
                            args@[i].view()
                        } else {
                            CallArgV { name: None, value: ValueV::Null }
                        },
                ),
                *p,
            ),
            Value::Plus(a, b) => ValueV::Plus(Box::new(a.view()), Box::new(b.view())),
            Value::List(vs, sep) => ValueV::List(
                Seq::new(
                    vs.len() as nat,
                    |i: int|
                        if 0 <= i < vs.len() {
                            vs@[i].view()
                        } else {
                            ValueV::Null
                        },
                ),
                *sep,
            ),
        }
    }
}


/// The views of a sequence of string parts.
pub open spec fn parts_view(ps: Seq<StringPart>) -> Seq<StringPartV> {
    Seq::new(ps.len(), |i: int| ps[i].view())
}

/// The views of a sequence of values.
pub open spec fn values_view(vs: Seq<Value>) -> Seq<ValueV> {
    Seq::new(vs.len(), |i: int| vs[i].view())
}

/// The views of a sequence of call arguments.
pub open spec fn args_view(vs: Seq<CallArg>) -> Seq<CallArgV> {
    Seq::new(vs.len(), |i: int| vs[i].view())
}

/// Adds a part to the end of a string: an empty literal part is dropped,
/// and a literal part right after another literal part is joined to it.
pub open spec fn push_part(acc: Seq<StringPartV>, p: StringPartV) -> Seq<StringPartV> {
    match p {
        StringPartV::Raw(b) => if b.len() == 0 {
            acc
        } else if acc.len() > 0 && acc.last() is Raw {
            acc.drop_last().push(StringPartV::Raw(acc.last()->Raw_0 + b))
        } else {
            acc.push(p)
        },
        StringPartV::Interpolation(_) => acc.push(p),
    }
}

/// Adds a part to the end of a list of parts, as `push_part` says.
pub fn push_part_exec(acc: &mut Vec<StringPart>, p: StringPart)
    ensures
        parts_view(final(acc)@) == push_part(parts_view(old(acc)@), p.view()),
{
    let ghost a0 = parts_view(acc@);
    match p {
        StringPart::Raw(mut b) => {
            let ghost b0 = b@;
            if b.len() == 0 {
                return ;
            }
            if acc.len() > 0 {
                let last = acc.pop().unwrap();
                proof {
                    assert(parts_view(acc@) =~= a0.drop_last());
                }
                match last {
                    StringPart::Raw(mut lb) => {
                        lb.append(&mut b);
                        acc.push(StringPart::Raw(lb));
                        proof {
                            assert(parts_view(acc@) =~= push_part(a0, StringPartV::Raw(b0)));
                        }
                    },
                    other => {
                        acc.push(other);
                        acc.push(StringPart::Raw(b));
                        proof {
                            assert(parts_view(acc@) =~= push_part(a0, StringPartV::Raw(b0)));
                        }
                    },
                }
            } else {
                acc.push(StringPart::Raw(b));
                proof {
                    assert(parts_view(acc@) =~= push_part(a0, StringPartV::Raw(b0)));
                }
            }
        },
        StringPart::Interpolation(v) => {
            let ghost vv = v.view();
            acc.push(StringPart::Interpolation(v));
            proof {
                assert(parts_view(acc@) =~= push_part(a0, StringPartV::Interpolation(vv)));
            }
        },
    }
}

/// The parts of a string's view are the views of its parts.
pub proof fn lemma_sstring_view(ss: &SassString)
    ensures
        ss.view().parts == parts_view(ss.parts@),
        ss.view().quotes == ss.quotes,
{
    assert(ss.view().parts =~= parts_view(ss.parts@));
}

/// The view of a list holds the views of its items.
pub proof fn lemma_list_view(v: &Value)
    ensures
        v matches Value::List(vs, sep) ==> v.view() == ValueV::List(values_view(vs@), *sep),
{
    if let Value::List(vs, sep) = v {
        assert(v.view()->List_0 =~= values_view(vs@));
    }
}

/// The view of a call holds the views of its arguments.
pub proof fn lemma_call_view(v: &Value)
    ensures
        v matches Value::Call(n, args, p) ==> v.view() == ValueV::Call(n@, args_view(args@), *p),
{
    if let Value::Call(n, args, p) = v {
        assert(v.view()->Call_1 =~= args_view(args@));
    }
}


// ---------------------------------------------------------------------
// Items
// ---------------------------------------------------------------------

/// How the members of a used module are named where it is used.
#[derive(Debug, PartialEq, Eq)]
pub enum UseAs {
    /// Under the last segment of the module's url.
    KeepName,
    /// Without a namespace.
    Star,
    /// Under the given namespace.
    Name(Vec<u8>),
    /// With the given prefix before each name, and no namespace.
    Prefix(Vec<u8>),
}

/// Which members of a module `@forward` passes on: all, only the named
/// functions and mixins (first set) and variables (second set), or all
/// but the named ones.
#[derive(Debug, PartialEq, Eq)]
pub enum Expose {
    All,
    Show(Vec<Vec<u8>>, Vec<Vec<u8>>),
    Hide(Vec<Vec<u8>>, Vec<Vec<u8>>),
}

/// A variable that a module is configured with: name, value, and whether
/// it is `!default`.
#[derive(Debug, PartialEq, Eq)]
pub struct Configure {
    pub name: Vec<u8>,
    pub value: Value,
    pub default: bool,
}

/// The formal arguments of a function or mixin: each name with its
/// default value, if it has one.
#[derive(Debug, PartialEq, Eq)]
pub struct FormalArg {
    pub name: Vec<u8>,
    pub default: Option<Value>,
}

/// A declared function or mixin. `decl` is the span of the name and the
/// formal arguments, `decl_at` where the `@function` or `@mixin` keyword
/// that introduces them starts.
#[derive(Debug, PartialEq, Eq)]
pub struct Callable {
    pub args: Vec<FormalArg>,
    pub body: Vec<Item>,
    pub decl: SourcePos,
    pub decl_at: usize,
}

/// A statement of a stylesheet.
#[derive(Debug, PartialEq, Eq)]
pub enum Item {
    Import(Vec<SassString>, Value, SourcePos),
    VariableDeclaration { name: Vec<u8>, val: Value, default: bool, global: bool, pos: SourcePos },
    AtRoot(SassString, Vec<Item>),
    AtRule { name: SassString, args: Value, body: Option<Vec<Item>>, pos: SourcePos },
    Debug(Value),
    Warn(Value),
    Error(Value, SourcePos),
    MixinDeclaration(Vec<u8>, Rc<Callable>),
    MixinCall(Vec<u8>, Vec<CallArg>, Option<Rc<Callable>>, SourcePos),
    Content(Vec<CallArg>, SourcePos),
    FunctionDeclaration(Vec<u8>, Rc<Callable>),
    Return(Value, SourcePos),
    IfStatement(Value, Vec<Item>, Vec<Item>),
    Each(Vec<Vec<u8>>, Value, Vec<Item>),
    For { name: Vec<u8>, from: Value, to: Value, inclusive: bool, body: Vec<Item> },
    While(Value, Vec<Item>),
    Use(SassString, UseAs, Vec<Configure>, SourcePos),
    Forward(SassString, UseAs, Expose, Vec<Configure>, SourcePos),
    Rule(SassString, Vec<Item>),
    NamespaceRule(SassString, Value, Vec<Item>),
    Property(SassString, Value),
    CustomProperty(SassString, Value),
    Comment(SassString),
    Empty,
}

impl SourcePos {
    /// The span, started instead at `at`: the keyword before it.
    pub open spec fn back_to(self, at: usize) -> SourcePos {
        SourcePos { file: self.file, start: at, end: self.end }
    }
}


// ---- views of items ----

pub enum UseAsV {
    KeepName,
    Star,
    Name(Seq<u8>),
    Prefix(Seq<u8>),
}

pub enum ExposeV {
    All,
    Show(Seq<Seq<u8>>, Seq<Seq<u8>>),
    Hide(Seq<Seq<u8>>, Seq<Seq<u8>>),
}

pub struct ConfigureV {
    pub name: Seq<u8>,
    pub value: ValueV,
    pub default: bool,
}

pub struct FormalArgV {
    pub name: Seq<u8>,
    pub default: Option<ValueV>,
}

pub struct CallableV {
    pub args: Seq<FormalArgV>,
    pub body: Seq<ItemV>,
    pub decl: SourcePos,
    pub decl_at: usize,
}

pub enum ItemV {
    Import(Seq<SassStringV>, ValueV, SourcePos),
    VariableDeclaration {
        name: Seq<u8>,
        val: ValueV,
        default: bool,
        global: bool,
        pos: SourcePos,
    },
    AtRoot(SassStringV, Seq<ItemV>),
    AtRule { name: SassStringV, args: ValueV, body: Option<Seq<ItemV>>, pos: SourcePos },
    Debug(ValueV),
    Warn(ValueV),
    Error(ValueV, SourcePos),
    MixinDeclaration(Seq<u8>, CallableV),
    MixinCall(Seq<u8>, Seq<CallArgV>, Option<CallableV>, SourcePos),
    Content(Seq<CallArgV>, SourcePos),
    FunctionDeclaration(Seq<u8>, CallableV),
    Return(ValueV, SourcePos),
    IfStatement(ValueV, Seq<ItemV>, Seq<ItemV>),
    Each(Seq<Seq<u8>>, ValueV, Seq<ItemV>),
    For { name: Seq<u8>, from: ValueV, to: ValueV, inclusive: bool, body: Seq<ItemV> },
    While(ValueV, Seq<ItemV>),
    Use(SassStringV, UseAsV, Seq<ConfigureV>, SourcePos),
    Forward(SassStringV, UseAsV, ExposeV, Seq<ConfigureV>, SourcePos),
    Rule(SassStringV, Seq<ItemV>),
    NamespaceRule(SassStringV, ValueV, Seq<ItemV>),
    Property(SassStringV, ValueV),
    CustomProperty(SassStringV, ValueV),
    Comment(SassStringV),
    Empty,
}

/// The views of byte strings.
pub open spec fn names_view(v: Seq<Vec<u8>>) -> Seq<Seq<u8>> {
    Seq::new(v.len(), |i: int| v[i]@)
}

impl UseAs {
    pub open spec fn view(&self) -> UseAsV {
        match self {
            UseAs::KeepName => UseAsV::KeepName,
            UseAs::Star => UseAsV::Star,
            UseAs::Name(n) => UseAsV::Name(n@),
            UseAs::Prefix(n) => UseAsV::Prefix(n@),
        }
    }
}

impl Expose {
    pub open spec fn view(&self) -> ExposeV {
        match self {
            Expose::All => ExposeV::All,
            Expose::Show(f, v) => ExposeV::Show(names_view(f@), names_view(v@)),
            Expose::Hide(f, v) => ExposeV::Hide(names_view(f@), names_view(v@)),
        }
    }
}

impl Configure {
    pub open spec fn view(&self) -> ConfigureV {
        ConfigureV { name: self.name@, value: self.value.view(), default: self.default }
    }
}

pub open spec fn configs_view(v: Seq<Configure>) -> Seq<ConfigureV> {
    Seq::new(v.len(), |i: int| v[i].view())
}

impl FormalArg {
    pub open spec fn view(&self) -> FormalArgV {
        FormalArgV {
            name: self.name@,
            default: match self.default {
                Some(d) => Some(d.view()),
                None => None,
            },
        }
    }
}

pub open spec fn sstrings_view(v: Seq<SassString>) -> Seq<SassStringV> {
    Seq::new(v.len(), |i: int| v[i].view())
}

/// The views of items.
pub open spec fn items_view(v: Seq<Item>) -> Seq<ItemV> {
    Seq::new(v.len(), |i: int| v[i].view())
}

impl Callable {
    pub open spec fn view(&self) -> CallableV
        decreases self,
    {
        CallableV {
            args: Seq::new(self.args.len() as nat, |i: int| self.args@[i].view()),
            body: Seq::new(
                self.body.len() as nat,
                |i: int|
                    if 0 <= i < self.body.len() {
                        self.body@[i].view()
                    } else {
                        ItemV::Empty
                    },
            ),
            decl: self.decl,
            decl_at: self.decl_at,
        }
    }
}

/// The views of the items of a body, as the view of an item holds them.
pub open spec fn body_items_view(b: Vec<Item>) -> Seq<ItemV>
    decreases b,
{
    Seq::new(
        b.len() as nat,
        |i: int|
            if 0 <= i < b.len() {
                b@[i].view()
            } else {
                ItemV::Empty
            },
    )
}

impl Item {
    pub open spec fn view(&self) -> ItemV
        decreases self,
    {
        match self {
            Item::Import(names, args, pos) => ItemV::Import(
                Seq::new(
                    names.len() as nat,
                    |i: int|
                        if 0 <= i < names.len() {
                            names@[i].view()
                        } else {
                            SassStringV { parts: seq![], quotes: Quotes::NoQuotes }
                        },
                ),
                args.view(),
                *pos,
            ),
            Item::VariableDeclaration { name, val, default, global, pos } => ItemV::VariableDeclaration {
                name: name@,
                val: val.view(),
                default: *default,
                global: *global,
                pos: *pos,
            },
            Item::AtRoot(s, b) => ItemV::AtRoot(s.view(), body_items_view(*b)),
            Item::AtRule { name, args, body, pos } => ItemV::AtRule {
                name: name.view(),
                args: args.view(),
                body: match body {
                    Some(b) => Some(body_items_view(*b)),
                    None => None,
                },
                pos: *pos,
            },
            Item::Debug(v) => ItemV::Debug(v.view()),
            Item::Warn(v) => ItemV::Warn(v.view()),
            Item::Error(v, p) => ItemV::Error(v.view(), *p),
            Item::MixinDeclaration(n, c) => ItemV::MixinDeclaration(n@, c.view()),
            Item::MixinCall(n, args, c, p) => ItemV::MixinCall(
                n@,
                Seq::new(
                    args.len() as nat,
                    |i: int|
                        if 0 <= i < args.len() {
                            args@[i].view()
                        } else {
                            CallArgV { name: None, value: ValueV::Null }
                        },
                ),
                match c {
                    Some(c) => Some(c.view()),
                    None => None,
                },
                *p,
            ),
            Item::Content(args, p) => ItemV::Content(
                Seq::new(
                    args.len() as nat,
                    |i: int|
                        if 0 <= i < args.len() {
                            args@[i].view()
                        } else {
                            CallArgV { name: None, value: ValueV::Null }
                        },
                ),
                *p,
            ),
            Item::FunctionDeclaration(n, c) => ItemV::FunctionDeclaration(n@, c.view()),
            Item::Return(v, p) => ItemV::Return(v.view(), *p),
            Item::IfStatement(c, a, b) => ItemV::IfStatement(
                c.view(),
                body_items_view(*a),
                body_items_view(*b),
            ),
            Item::Each(ns, v, b) => ItemV::Each(names_view(ns@), v.view(), body_items_view(*b)),
            Item::For { name, from, to, inclusive, body } => ItemV::For {
                name: name@,
                from: from.view(),
                to: to.view(),
                inclusive: *inclusive,
                body: body_items_view(*body),
            },
            Item::While(c, b) => ItemV::While(c.view(), body_items_view(*b)),
            Item::Use(s, a, w, p) => ItemV::Use(s.view(), a.view(), configs_view(w@), *p),
            Item::Forward(s, a, e, w, p) => ItemV::Forward(
                s.view(),
                a.view(),
                e.view(),
                configs_view(w@),
                *p,
            ),
            Item::Rule(s, b) => ItemV::Rule(s.view(), body_items_view(*b)),
            Item::NamespaceRule(s, v, b) => ItemV::NamespaceRule(
                s.view(),
                v.view(),
                body_items_view(*b),
            ),
            Item::Property(s, v) => ItemV::Property(s.view(), v.view()),
            Item::CustomProperty(s, v) => ItemV::CustomProperty(s.view(), v.view()),
            Item::Comment(s) => ItemV::Comment(s.view()),
            Item::Empty => ItemV::Empty,
        }
    }
}

/// The view of a body holds the views of its items.
pub proof fn lemma_body_items_view(b: Vec<Item>)
    ensures
        body_items_view(b) == items_view(b@),
{
    assert(body_items_view(b) =~= items_view(b@));
}

/// The names of an import hold the views of its strings.
pub proof fn lemma_import_view(it: &Item)
    ensures
        it matches Item::Import(names, args, pos) ==> it.view() == ItemV::Import(
            sstrings_view(names@),
            args.view(),
            *pos,
        ),
{
    if let Item::Import(names, args, pos) = it {
        assert(it.view()->Import_0 =~= sstrings_view(names@));
    }
}

} // verus!
