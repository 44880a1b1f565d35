//! The shape of a parsed script module, reduced to exactly what the analysis
//! reads: top-level expression statements, call expressions with an optional
//! identifier callee, object literals with their properties, literal values,
//! and function-valued expressions. Spans are half-open ranges of character
//! offsets into the source text.

use vstd::prelude::*;

use crate::meta::view_opt_str;

verus! {

/// A half-open source span in character offsets.
#[derive(Debug, Clone, Copy, PartialEq, Eq, Structural)]
pub struct Span {
    pub lo: usize,
    pub hi: usize,
}

/// A property key. Identifier, string-literal and numeric-literal keys carry
/// their textual name; any other key shape (a computed key) is `Other`.
#[derive(Debug)]
pub enum PropKey {
    Ident { name: String, span: Span },
    Str { value: String, span: Span },
    Num { text: String, span: Span },
    Other,
}

/// One property of an object literal: a key-value pair, a shorthand method,
/// or any other shape (a spread, a getter).
#[derive(Debug)]
pub enum JsProp {
    KeyValue { key: PropKey, value: JsExpr },
    Method { key: PropKey },
    Other,
}

/// An expression, reduced to the shapes the analysis distinguishes.
/// `callee` of a `Call` carries the identifier name when the callee is a
/// plain identifier, and `None` for any other callee shape.
#[derive(Debug)]
pub enum JsExpr {
    Object { props: Vec<JsProp> },
    Call { callee: Option<String>, args: Vec<JsExpr> },
    Ident { name: String },
    LitStr { value: String },
    LitNum { text: String },
    LitBool { value: bool },
    Arrow,
    Function,
    Other,
}

/// A top-level statement: an expression statement, or anything else.
#[derive(Debug)]
pub enum JsStmt {
    Expr { expr: JsExpr },
    Other,
}

/// A parsed module: its top-level statements in source order.
#[derive(Debug)]
pub struct JsModule {
    pub body: Vec<JsStmt>,
}

/// The kind of a leading comment.
#[derive(Debug, Clone, Copy, PartialEq, Eq, Structural)]
pub enum CommentKind {
    Line,
    Block,
}

/// One leading comment, attached at the character offset of the token it
/// precedes. `text` is the comment's content without its delimiters.
#[derive(Debug, Clone)]
pub struct CommentEntry {
    pub pos: usize,
    pub kind: CommentKind,
    pub text: String,
}

/// A comment's rendered form: `//text` for a line comment, `/*text*/` for a
/// block comment.
pub open spec fn comment_rendered(e: CommentEntry) -> Seq<char> {
    match e.kind {
        CommentKind::Line => seq!['/', '/'] + e.text@,
        CommentKind::Block => seq!['/', '*'] + e.text@ + seq!['*', '/'],
    }
}

/// The rendered form of the first comment attached at offset `pos`, if any.
pub open spec fn comment_at(cm: Seq<CommentEntry>, pos: int) -> Option<Seq<char>>
    decreases cm.len(),
{
    if cm.len() == 0 {
        None
    } else if cm[0].pos == pos {
        Some(comment_rendered(cm[0]))
    } else {
        comment_at(cm.drop_first(), pos)
    }
}

/// Looks up the first leading comment attached at offset `pos` and renders it.
pub fn get_comment(pos: usize, comments: &Vec<CommentEntry>) -> (r: Option<String>)
    ensures
        view_opt_str(r) == comment_at(comments@, pos as int),
{
    let mut i: usize = 0;
    proof {
        assert(comments@.subrange(0, comments@.len() as int) =~= comments@);
    }
    while i < comments.len()
        invariant
            i <= comments@.len(),
            comment_at(comments@, pos as int) == comment_at(
                comments@.subrange(i as int, comments@.len() as int),
                pos as int,
            ),
        decreases comments@.len() - i,
    {
        let entry = &comments[i];
        proof {
            assert(comments@.subrange(i as int, comments@.len() as int)[0] == comments@[i as int]);
            assert(comments@.subrange(i as int, comments@.len() as int).drop_first()
                =~= comments@.subrange(i + 1, comments@.len() as int));
        }
        if entry.pos == pos {
            let rendered = match entry.kind {
                CommentKind::Line => {
                    let r = String::from_str("//").concat(entry.text.as_str());
                    proof {
                        reveal_strlit("//");
                        assert(r@ =~= comment_rendered(comments@[i as int]));
                    }
                    r
                },
                CommentKind::Block => {
                    let r = String::from_str("/*").concat(entry.text.as_str()).concat("*/");
                    proof {
                        reveal_strlit("/*");
                        reveal_strlit("*/");
                        assert(r@ =~= comment_rendered(comments@[i as int]));
                    }
                    r
                },
            };
            return Some(rendered);
        }
        i = i + 1;
    }
    proof {
        assert(comments@.subrange(i as int, comments@.len() as int) =~= Seq::<
            CommentEntry,
        >::empty());
    }
    None
}

} // verus!
