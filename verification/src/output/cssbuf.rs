//! The css text being written, and the rules whose bodies are collected
//! before they are written.
use crate::css::{join_texts, join_texts_exec, texts_view};
use crate::parser::value::kw;
use crate::value::{format_value, format_value_exec, push_bytes, push_str, CssValue, CssValueV};
use vstd::prelude::*;

verus! {

/// An item of the body of a css rule.
#[derive(Debug)]
pub enum BodyItem {
    Property(Vec<u8>, CssValue),
    CustomProperty(Vec<u8>, CssValue),
    Comment(Vec<u8>),
    Import(Vec<u8>),
}

pub enum BodyItemV {
    Property(Seq<u8>, CssValueV),
    CustomProperty(Seq<u8>, CssValueV),
    Comment(Seq<u8>),
    Import(Seq<u8>),
}

impl BodyItem {
    pub open spec fn view(&self) -> BodyItemV {
        match self {
            BodyItem::Property(n, v) => BodyItemV::Property(n@, v.view()),
            BodyItem::CustomProperty(n, v) => BodyItemV::CustomProperty(n@, v.view()),
            BodyItem::Comment(t) => BodyItemV::Comment(t@),
            BodyItem::Import(t) => BodyItemV::Import(t@),
        }
    }
}

pub open spec fn body_view(b: Seq<BodyItem>) -> Seq<BodyItemV> {
    Seq::new(b.len(), |i: int| b[i].view())
}

/// A rule being built: its selectors as written (none at the top
/// level), and the items of its body.
#[derive(Debug)]
pub struct Rule {
    pub selectors: Vec<Vec<u8>>,
    pub body: Vec<BodyItem>,
}

pub struct RuleV {
    pub selectors: Seq<Seq<u8>>,
    pub body: Seq<BodyItemV>,
}

impl Rule {
    pub open spec fn view(&self) -> RuleV {
        RuleV { selectors: texts_view(self.selectors@), body: body_view(self.body@) }
    }
}

/// Css text: the bytes written, the indentation level of what comes
/// next, and whether an empty line is due before the next block.
#[derive(Debug)]
pub struct CssBuf {
    pub bytes: Vec<u8>,
    pub indent: usize,
    pub pending: bool,
}

pub struct BufV {
    pub bytes: Seq<u8>,
    pub indent: usize,
    pub pending: bool,
}

impl CssBuf {
    pub open spec fn view(&self) -> BufV {
        BufV { bytes: self.bytes@, indent: self.indent, pending: self.pending }
    }
}

/// The indentation of level `n`: two spaces per level.
pub open spec fn spaces(n: nat) -> Seq<u8> {
    Seq::new(2 * n, |i: int| 32u8)
}

/// A body item written at indentation level `n`.
pub open spec fn item_text(it: BodyItemV, n: nat) -> Seq<u8> {
    match it {
        BodyItemV::Property(name, v) => spaces(n) + name + kw(": ") + format_value(v) + kw(";\n"),
        BodyItemV::CustomProperty(name, v) => spaces(n) + name + kw(": ") + format_value(v) + kw(
            ";\n",
        ),
        BodyItemV::Comment(t) => spaces(n) + kw("/*") + t + kw("*/\n"),
        BodyItemV::Import(t) => spaces(n) + kw("@import ") + t + kw(";\n"),
    }
}

/// The first `k` body items written at level `n`.
pub open spec fn items_text(its: Seq<BodyItemV>, n: nat, k: int) -> Seq<u8>
    decreases k,
{
    if k <= 0 || k > its.len() {
        seq![]
    } else {
        items_text(its, n, k - 1) + item_text(its[k - 1], n)
    }
}

/// A rule written at level `n`: nothing if its body is empty; its items
/// alone if it has no selectors; else the selectors and the items in a
/// block.
pub open spec fn rule_text(r: RuleV, n: nat) -> Seq<u8> {
    if r.body.len() == 0 {
        seq![]
    } else if r.selectors.len() == 0 {
        items_text(r.body, n, r.body.len() as int)
    } else {
        spaces(n) + join_texts(r.selectors, r.selectors.len() as int) + kw(" {\n") + items_text(
            r.body,
            n + 1,
            r.body.len() as int,
        ) + spaces(n) + kw("}\n")
    }
}

/// The buffer with `t` added: nothing changes for an empty text, and a
/// due empty line comes first.
pub open spec fn buf_add(b: BufV, t: Seq<u8>) -> BufV {
    if t.len() == 0 {
        b
    } else if b.pending {
        BufV { bytes: b.bytes + seq![10u8] + t, indent: b.indent, pending: false }
    } else {
        BufV { bytes: b.bytes + t, indent: b.indent, pending: false }
    }
}

/// Asks for an empty line before the next block, if anything was written.
pub open spec fn buf_separate(b: BufV) -> BufV {
    BufV { bytes: b.bytes, indent: b.indent, pending: b.pending || b.bytes.len() > 0 }
}

/// An empty buffer at the level of `b`.
pub open spec fn buf_sub(b: BufV) -> BufV {
    BufV { bytes: seq![], indent: b.indent, pending: false }
}

impl CssBuf {
    /// An empty buffer at the top level.
    pub fn new() -> (r: CssBuf)
        ensures
            r.view() == (BufV { bytes: seq![], indent: 0, pending: false }),
    {
        CssBuf { bytes: Vec::new(), indent: 0, pending: false }
    }

    /// An empty buffer at the same level.
    pub fn new_as(&self) -> (r: CssBuf)
        ensures
            r.view() == buf_sub(self.view()),
    {
        CssBuf { bytes: Vec::new(), indent: self.indent, pending: false }
    }

    /// Adds text.
    pub fn add(&mut self, t: &[u8])
        ensures
            final(self).view() == buf_add(old(self).view(), t@),
    {
        let ghost b0 = self.bytes@;
        if t.len() > 0 {
            if self.pending {
                self.bytes.push(10u8);
                self.pending = false;
                push_bytes(&mut self.bytes, t);
                assert(self.bytes@ =~= b0 + seq![10u8] + t@);
            } else {
                push_bytes(&mut self.bytes, t);
            }
        }
    }

    /// Asks for an empty line before the next block.
    pub fn do_separate(&mut self)
        ensures
            final(self).view() == buf_separate(old(self).view()),
    {
        if self.bytes.len() > 0 {
            self.pending = true;
        }
    }
}

/// Writes the indentation of level `n`.
pub fn push_spaces(out: &mut Vec<u8>, n: usize)
    ensures
        final(out)@ == old(out)@ + spaces(n as nat),
{
    let ghost o0 = out@;
    let mut i: usize = 0;
    while i < n
        invariant
            i <= n,
            out@ == o0 + Seq::new(2 * i as nat, |k: int| 32u8),
        decreases n - i,
    {
        out.push(32u8);
        out.push(32u8);
        i += 1;
        proof {
            assert(out@ =~= o0 + Seq::new(2 * i as nat, |k: int| 32u8));
        }
    }
}

/// The indentation of level `n`, or of the level below it when `deeper`.
fn push_level(out: &mut Vec<u8>, n: usize, deeper: bool)
    ensures
        final(out)@ == old(out)@ + spaces(if deeper {
            (n + 1) as nat
        } else {
            n as nat
        }),
{
    let ghost o0 = out@;
    push_spaces(out, n);
    if deeper {
        out.push(32u8);
        out.push(32u8);
    }
    proof {
        assert(out@ =~= o0 + spaces(if deeper {
            (n + 1) as nat
        } else {
            n as nat
        }));
    }
}

/// Writes a body item at level `n`, or at the level below it when
/// `deeper`.
pub fn write_item(it: &BodyItem, n: usize, deeper: bool, out: &mut Vec<u8>)
    ensures
        final(out)@ == old(out)@ + item_text(it.view(), if deeper {
            (n + 1) as nat
        } else {
            n as nat
        }),
{
    let ghost o0 = out@;
    let ghost lv: nat = if deeper {
        (n + 1) as nat
    } else {
        n as nat
    };
    push_level(out, n, deeper);
    match it {
        BodyItem::Property(name, v) => {
            push_bytes(out, name.as_slice());
            push_str(out, ": ");
            let t = format_value_exec(v);
            push_bytes(out, t.as_slice());
            push_str(out, ";\n");
        },
        BodyItem::CustomProperty(name, v) => {
            push_bytes(out, name.as_slice());
            push_str(out, ": ");
            let t = format_value_exec(v);
            push_bytes(out, t.as_slice());
            push_str(out, ";\n");
        },
        BodyItem::Comment(t) => {
            push_str(out, "/*");
            push_bytes(out, t.as_slice());
            push_str(out, "*/\n");
        },
        BodyItem::Import(t) => {
            push_str(out, "@import ");
            push_bytes(out, t.as_slice());
            push_str(out, ";\n");
        },
    }
    proof {
        assert(out@ =~= o0 + item_text(it.view(), lv));
    }
}

/// Writes body items at level `n`, or at the level below it when
/// `deeper`.
pub fn write_items(its: &Vec<BodyItem>, n: usize, deeper: bool, out: &mut Vec<u8>)
    ensures
        final(out)@ == old(out)@ + items_text(body_view(its@), if deeper {
            (n + 1) as nat
        } else {
            n as nat
        }, its.len() as int),
{
    let ghost o0 = out@;
    let ghost bv = body_view(its@);
    let ghost lv: nat = if deeper {
        (n + 1) as nat
    } else {
        n as nat
    };
    let mut i: usize = 0;
    while i < its.len()
        invariant
            i <= its.len(),
            bv == body_view(its@),
            lv == (if deeper {
                (n + 1) as nat
            } else {
                n as nat
            }),
            out@ == o0 + items_text(bv, lv, i as int),
        decreases its.len() - i,
    {
        write_item(&its[i], n, deeper, out);
        i += 1;
        proof {
            assert(out@ =~= o0 + items_text(bv, lv, i as int));
        }
    }
}

/// The text of a rule at level `n`.
pub fn rule_text_exec(r: &Rule, n: usize) -> (t: Vec<u8>)
    ensures
        t@ == rule_text(r.view(), n as nat),
{
    let mut t: Vec<u8> = Vec::new();
    if r.body.len() == 0 {
        proof {
            assert(t@ =~= rule_text(r.view(), n as nat));
        }
        return t;
    }
    if r.selectors.len() == 0 {
        write_items(&r.body, n, false, &mut t);
        proof {
            assert(t@ =~= rule_text(r.view(), n as nat));
        }
        return t;
    }
    push_spaces(&mut t, n);
    join_texts_exec(&r.selectors, &mut t);
    push_str(&mut t, " {\n");
    write_items(&r.body, n, true, &mut t);
    push_spaces(&mut t, n);
    push_str(&mut t, "}\n");
    proof {
        assert(t@ =~= rule_text(r.view(), n as nat));
    }
    t
}

} // verus!
