//! Grouping of tokens into the lossless preprocessor syntax tree.
//!
//! A source file is a flat sequence of elements. A line whose first
//! significant token is `#` becomes a directive node that keeps every token
//! of the line, trailing line feed included; every other token stands as a
//! terminal element of its own. The grouping loses nothing: flattening the
//! elements gives back the token sequence exactly.

use vstd::prelude::*;

use crate::lex::{
    line_end_at, sig_at, lemma_line_end_unique, lemma_sig_at_unique, text_eq_str, TokM, Token,
    TokenKind,
};

verus! {

/// The closed set of directive node kinds.
#[derive(Clone, Copy, Debug, PartialEq, Eq, Structural)]
pub enum NodeKind {
    /// A `#` line with nothing after the hash.
    Empty,
    /// `#version`
    Version,
    /// `#extension`
    Extension,
    /// `#define`
    Define,
    /// `#ifdef`
    IfDef,
    /// `#ifndef`
    IfNDef,
    /// `#if`
    If,
    /// `#else`
    Else,
    /// `#endif`
    EndIf,
    /// `#undef`
    Undef,
    /// `#error`
    Error,
    /// `#include`
    Include,
    /// `#line`
    Line,
    /// A `#` line with an unrecognized directive word.
    Unknown,
}

/// An element of the lossless tree: a directive node or a terminal token.
#[derive(Debug)]
pub enum Element {
    Node { kind: NodeKind, toks: Vec<Token> },
    Tok { tok: Token },
}

/// The mathematical model of an element.
#[verifier::ext_equal]
pub ghost enum EltM {
    Node { kind: NodeKind, toks: Seq<TokM> },
    Tok { tok: TokM },
}

impl View for Element {
    type V = EltM;

    open spec fn view(&self) -> EltM {
        match self {
            Element::Node { kind, toks } => EltM::Node { kind: *kind, toks: toks.deep_view() },
            Element::Tok { tok } => EltM::Tok { tok: tok@ },
        }
    }
}

impl DeepView for Element {
    type V = EltM;

    open spec fn deep_view(&self) -> EltM {
        self.view()
    }
}

/// The tokens an element carries.
pub open spec fn elem_toks(e: EltM) -> Seq<TokM> {
    match e {
        EltM::Node { toks, .. } => toks,
        EltM::Tok { tok } => seq![tok],
    }
}

/// Flattening a sequence of elements back into tokens.
pub open spec fn elems_flatten(es: Seq<EltM>) -> Seq<TokM>
    decreases es.len(),
{
    if es.len() == 0 {
        Seq::empty()
    } else {
        elems_flatten(es.drop_last()) + elem_toks(es.last())
    }
}

/// Every directive node carries at least one token.
pub open spec fn elems_wf(es: Seq<EltM>) -> bool {
    forall|i: int| 0 <= i < es.len() ==> match #[trigger] es[i] {
        EltM::Node { toks, .. } => toks.len() > 0,
        EltM::Tok { .. } => true,
    }
}

/// A directive node carries its `#` symbol among its tokens.
pub open spec fn node_has_hash(e: EltM) -> bool {
    match e {
        EltM::Node { toks, .. } => exists|j: int|
            0 <= j < toks.len() && (#[trigger] toks[j]).kind == TokenKind::Symbol && toks[j].text
                == "#"@,
        EltM::Tok { .. } => true,
    }
}

/// Every directive node carries a `#` symbol.
pub open spec fn nodes_hash_marked(es: Seq<EltM>) -> bool {
    forall|i: int| 0 <= i < es.len() ==> node_has_hash(#[trigger] es[i])
}

pub proof fn lemma_flatten_push(es: Seq<EltM>, e: EltM)
    ensures
        elems_flatten(es.push(e)) == elems_flatten(es) + elem_toks(e),
{
    assert(es.push(e).drop_last() =~= es);
    assert(es.push(e).last() == e);
}

/// Flattening distributes over concatenation.
pub proof fn lemma_flatten_concat(a: Seq<EltM>, b: Seq<EltM>)
    ensures
        elems_flatten(a + b) == elems_flatten(a) + elems_flatten(b),
    decreases b.len(),
{
    if b.len() == 0 {
        assert(a + b =~= a);
        assert(elems_flatten(a) + elems_flatten(b) =~= elems_flatten(a));
    } else {
        lemma_flatten_concat(a, b.drop_last());
        assert((a + b).drop_last() =~= a + b.drop_last());
        assert((a + b).last() == b.last());
        assert(elems_flatten(a + b) == elems_flatten(a + b.drop_last()) + elem_toks(b.last()));
        assert(elems_flatten(a) + elems_flatten(b.drop_last()) + elem_toks(b.last())
            =~= elems_flatten(a) + elems_flatten(b));
    }
}

/// Every token of an element appears in the flattening.
pub proof fn lemma_elem_token_in_flatten(es: Seq<EltM>, i: int, j: int)
    requires
        0 <= i < es.len(),
        0 <= j < elem_toks(es[i]).len(),
    ensures
        exists|k: int|
            0 <= k < elems_flatten(es).len() && #[trigger] elems_flatten(es)[k] == elem_toks(
                es[i],
            )[j],
    decreases es.len(),
{
    if i == es.len() - 1 {
        let pre = elems_flatten(es.drop_last());
        assert(elems_flatten(es) == pre + elem_toks(es.last()));
        assert(elems_flatten(es)[pre.len() + j] == elem_toks(es[i])[j]);
    } else {
        lemma_elem_token_in_flatten(es.drop_last(), i, j);
        let pre = elems_flatten(es.drop_last());
        let k = choose|k: int| 0 <= k < pre.len() && #[trigger] pre[k] == elem_toks(
            es.drop_last()[i],
        )[j];
        assert(es.drop_last()[i] == es[i]);
        assert(elems_flatten(es) == pre + elem_toks(es.last()));
        assert(elems_flatten(es)[k] == pre[k]);
    }
}

/// In a tree whose flattening tiles a source, every directive node's
/// tokens have the shape of their kinds.
pub proof fn lemma_node_toks_shaped(src: Seq<char>, es: Seq<EltM>, i: int)
    requires
        crate::lex::tokens_tile(src, elems_flatten(es)),
        0 <= i < es.len(),
    ensures
        crate::lex::toks_shaped(elem_toks(es[i])),
{
    let toks = elem_toks(es[i]);
    assert forall|j: int| 0 <= j < toks.len() implies crate::lex::kind_matches(
        (#[trigger] toks[j]).text,
        toks[j].kind,
    ) by {
        lemma_elem_token_in_flatten(es, i, j);
        let k = choose|k: int|
            0 <= k < elems_flatten(es).len() && #[trigger] elems_flatten(es)[k] == toks[j];
        assert(crate::lex::token_wf(src, elems_flatten(es)[k]));
    }
}

/// The directive kind a directive word names.
pub open spec fn spec_word_kind(text: Seq<char>) -> NodeKind {
    if text == "version"@ {
        NodeKind::Version
    } else if text == "extension"@ {
        NodeKind::Extension
    } else if text == "define"@ {
        NodeKind::Define
    } else if text == "ifdef"@ {
        NodeKind::IfDef
    } else if text == "ifndef"@ {
        NodeKind::IfNDef
    } else if text == "if"@ {
        NodeKind::If
    } else if text == "else"@ {
        NodeKind::Else
    } else if text == "endif"@ {
        NodeKind::EndIf
    } else if text == "undef"@ {
        NodeKind::Undef
    } else if text == "error"@ {
        NodeKind::Error
    } else if text == "include"@ {
        NodeKind::Include
    } else if text == "line"@ {
        NodeKind::Line
    } else {
        NodeKind::Unknown
    }
}

/// The kind of a directive node whose hash stands at `sig` and whose line
/// runs to `node_end`: classified by the word after the hash.
pub open spec fn spec_node_kind(toks: Seq<TokM>, sig: int, node_end: int) -> NodeKind {
    let wordpos = sig_at(toks, sig + 1);
    if wordpos >= node_end || toks[wordpos].kind == TokenKind::Newline {
        NodeKind::Empty
    } else if toks[wordpos].kind == TokenKind::Ident {
        spec_word_kind(toks[wordpos].text)
    } else {
        NodeKind::Unknown
    }
}

/// The one grouping of a token sequence: at a line start whose first
/// significant token is `#`, the whole line (trailing line feed included)
/// becomes a directive node; every other token stands alone.
#[verifier::opaque]
pub open spec fn group(toks: Seq<TokM>, pos: int, at_line_start: bool) -> Seq<EltM>
    decreases toks.len() - pos,
{
    if pos < 0 || pos >= toks.len() {
        Seq::empty()
    } else {
        let sig = sig_at(toks, pos);
        if at_line_start && sig < toks.len() && toks[sig].kind == TokenKind::Symbol
            && toks[sig].text == "#"@ {
            let le = line_end_at(toks, pos);
            let node_end0 = if le < toks.len() {
                le + 1
            } else {
                toks.len() as int
            };
            let node_end = if node_end0 <= pos {
                pos + 1
            } else {
                node_end0
            };
            seq![
                EltM::Node {
                    kind: spec_node_kind(toks, sig, node_end),
                    toks: toks.subrange(pos, node_end),
                },
            ] + group(toks, node_end, true)
        } else {
            seq![EltM::Tok { tok: toks[pos] }] + group(
                toks,
                pos + 1,
                toks[pos].kind == TokenKind::Newline,
            )
        }
    }
}

/// Index of the first token at or after `j` that is neither whitespace nor a
/// comment, or the end of the sequence.
pub fn skip_blanks(toks: &Vec<Token>, j: usize) -> (r: usize)
    requires
        j <= toks@.len(),
    ensures
        j <= r <= toks@.len(),
        r < toks@.len() ==> toks@[r as int].kind != TokenKind::Whitespace && toks@[r
            as int].kind != TokenKind::Comment,
        forall|k: int|
            j <= k < r ==> (#[trigger] toks@[k].kind == TokenKind::Whitespace || toks@[k].kind
                == TokenKind::Comment),
{
    let n = toks.len();
    let mut r = j;
    while r < n && (matches!(toks[r].kind, TokenKind::Whitespace) || matches!(
        toks[r].kind,
        TokenKind::Comment,
    ))
        invariant
            j <= r <= n,
            n == toks@.len(),
            forall|k: int|
                j <= k < r ==> (#[trigger] toks@[k].kind == TokenKind::Whitespace
                    || toks@[k].kind == TokenKind::Comment),
        decreases n - r,
    {
        r += 1;
    }
    r
}

/// Whether the token is the `#` symbol.
fn is_hash(t: &Token) -> (r: bool)
    ensures
        r == (t.text@ == "#"@),
{
    text_eq_str(&t.text, "#")
}

/// The directive kind named by an identifier token's text.
fn directive_word_kind(t: &Token) -> (r: NodeKind)
    ensures
        r == spec_word_kind(t.text@),
{
    if text_eq_str(&t.text, "version") {
        NodeKind::Version
    } else if text_eq_str(&t.text, "extension") {
        NodeKind::Extension
    } else if text_eq_str(&t.text, "define") {
        NodeKind::Define
    } else if text_eq_str(&t.text, "ifdef") {
        NodeKind::IfDef
    } else if text_eq_str(&t.text, "ifndef") {
        NodeKind::IfNDef
    } else if text_eq_str(&t.text, "if") {
        NodeKind::If
    } else if text_eq_str(&t.text, "else") {
        NodeKind::Else
    } else if text_eq_str(&t.text, "endif") {
        NodeKind::EndIf
    } else if text_eq_str(&t.text, "undef") {
        NodeKind::Undef
    } else if text_eq_str(&t.text, "error") {
        NodeKind::Error
    } else if text_eq_str(&t.text, "include") {
        NodeKind::Include
    } else if text_eq_str(&t.text, "line") {
        NodeKind::Line
    } else {
        NodeKind::Unknown
    }
}

/// Group a token sequence into elements. The elements flatten back to the
/// token sequence exactly, and every directive node is nonempty.
pub fn build(toks: Vec<Token>) -> (es: Vec<Element>)
    ensures
        elems_flatten(es.deep_view()) == toks.deep_view(),
        elems_wf(es.deep_view()),
        nodes_hash_marked(es.deep_view()),
        es.deep_view() == group(toks.deep_view(), 0, true),
{
    let ghost tv = toks.deep_view();
    let n = toks.len();
    let mut es: Vec<Element> = Vec::new();
    let mut pos: usize = 0;
    let mut at_line_start = true;
    proof {
        reveal(crate::cst::group);
        assert(es.deep_view() + group(tv, 0, true) =~= group(tv, 0, true));
    }
    while pos < n
        invariant
            pos <= n,
            n == toks@.len(),
            tv == toks.deep_view(),
            elems_flatten(es.deep_view()) == toks.deep_view().subrange(0, pos as int),
            elems_wf(es.deep_view()),
            nodes_hash_marked(es.deep_view()),
            es.deep_view() + group(tv, pos as int, at_line_start) == group(tv, 0, true),
        decreases n - pos,
    {
        let ghost old_als = at_line_start;
        proof {
            reveal(crate::cst::group);
        }
        let sig = skip_blanks(&toks, pos);
        proof {
            lemma_sig_at_unique(tv, pos as int, sig as int);
        }
        let mut handled = false;
        if at_line_start && sig < n && matches!(toks[sig].kind, TokenKind::Symbol) && is_hash(
            &toks[sig],
        ) {
            // A directive line: find its end (the trailing line feed, or the
            // end of the file).
            let mut k: usize = pos;
            while k < n && !matches!(toks[k].kind, TokenKind::Newline)
                invariant
                    pos <= k <= n,
                    n == toks@.len(),
                    forall|j: int|
                        pos <= j < k ==> (#[trigger] toks.deep_view()[j]).kind
                            != TokenKind::Newline,
                decreases n - k,
            {
                k += 1;
            }
            let node_end = if k < n {
                k + 1
            } else {
                n
            };
            // Classify by the word after the hash.
            let wordpos = skip_blanks(&toks, sig + 1);
            let kind = if wordpos >= node_end || matches!(toks[wordpos].kind, TokenKind::Newline) {
                NodeKind::Empty
            } else if matches!(toks[wordpos].kind, TokenKind::Ident) {
                directive_word_kind(&toks[wordpos])
            } else {
                NodeKind::Unknown
            };
            let mut node_toks: Vec<Token> = Vec::new();
            let mut j: usize = pos;
            while j < node_end
                invariant
                    pos <= j <= node_end <= n,
                    n == toks@.len(),
                    node_toks.deep_view() == toks.deep_view().subrange(pos as int, j as int),
                decreases node_end - j,
            {
                let ghost prev = node_toks.deep_view();
                let t = toks[j].dup();
                let ghost tm = t@;
                node_toks.push(t);
                j += 1;
                proof {
                    assert(node_toks.deep_view() =~= prev.push(tm));
                    assert(node_toks.deep_view() =~= toks.deep_view().subrange(
                        pos as int,
                        j as int,
                    ));
                }
            }
            if node_toks.len() > 0 {
                let ghost old_es = es.deep_view();
                let ghost nts = node_toks.deep_view();
                es.push(Element::Node { kind, toks: node_toks });
                proof {
                    assert(es.deep_view() =~= old_es.push(
                        EltM::Node { kind: kind, toks: nts },
                    ));
                    lemma_flatten_push(old_es, EltM::Node { kind: kind, toks: nts });
                    assert(elems_flatten(es.deep_view()) =~= toks.deep_view().subrange(
                        0,
                        node_end as int,
                    ));
                    // The hash the line starts with lies inside the node.
                    assert(toks.deep_view()[sig as int].kind != TokenKind::Newline);
                    assert(sig < node_end);
                    assert(nts[sig - pos] == toks.deep_view()[sig as int]);
                    assert(nts[sig - pos].kind == TokenKind::Symbol && nts[sig - pos].text
                        == "#"@);
                    assert(node_has_hash(EltM::Node { kind: kind, toks: nts }));
                }
                proof {
                    // This node is exactly the head the grouping yields.
                    lemma_line_end_unique(tv, pos as int, k as int);
                    lemma_sig_at_unique(tv, sig as int + 1, wordpos as int);
                    assert(kind == spec_node_kind(tv, sig as int, node_end as int));
                    let head = (EltM::Node {
                        kind: spec_node_kind(tv, sig as int, node_end as int),
                        toks: tv.subrange(pos as int, node_end as int),
                    });
                    assert(group(tv, pos as int, old_als) =~= seq![head] + group(
                        tv,
                        node_end as int,
                        true,
                    ));
                    assert((EltM::Node { kind: kind, toks: nts }) =~~= head);
                    assert(es.deep_view() + group(tv, node_end as int, true) =~= old_es + group(
                        tv,
                        pos as int,
                        old_als,
                    ));
                }
                at_line_start = true;
                pos = node_end;
                handled = true;
            }
        }
        if !handled {
            let t = toks[pos].dup();
            at_line_start = matches!(t.kind, TokenKind::Newline);
            let ghost old_es = es.deep_view();
            let ghost tm = t@;
            es.push(Element::Tok { tok: t });
            proof {
                assert(es.deep_view() =~= old_es.push(EltM::Tok { tok: tm }));
                lemma_flatten_push(old_es, EltM::Tok { tok: tm });
                assert(elems_flatten(es.deep_view()) =~= toks.deep_view().subrange(
                    0,
                    pos as int + 1,
                ));
                // This token is exactly the head the grouping yields.
                let head = (EltM::Tok { tok: tv[pos as int] });
                assert(group(tv, pos as int, old_als) =~= seq![head] + group(
                    tv,
                    pos as int + 1,
                    tv[pos as int].kind == TokenKind::Newline,
                ));
                assert((EltM::Tok { tok: tm }) =~~= head);
                assert(es.deep_view() + group(
                    tv,
                    pos as int + 1,
                    tv[pos as int].kind == TokenKind::Newline,
                ) =~= old_es + group(tv, pos as int, old_als));
            }
            pos += 1;
        }
    }
    proof {
        reveal(crate::cst::group);
        assert(toks.deep_view().subrange(0, n as int) =~= toks.deep_view());
        assert(group(tv, n as int, at_line_start) =~= Seq::<EltM>::empty());
        assert(es.deep_view() =~= es.deep_view() + group(tv, n as int, at_line_start));
    }
    es
}

} // verus!
