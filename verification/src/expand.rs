//! The macro invocation engine.
//!
//! An identifier with a definition is substituted; function-like macros
//! collect their arguments up to the matching parenthesis; the replacement
//! is rescanned so nested macros expand. A macro is painted during the
//! rescan of its own replacement, so no expansion recurses forever: the
//! painted set only grows, and it can never grow past the table, which is
//! the termination measure Verus checks.

use vstd::prelude::*;

use crate::defs::{contains_name, DefinitionTable, DefM, Definition};
use crate::directive::{dec_val, digit_val};
use crate::events::{ProcessingErrorKind, ProcessingErrorKindM};
use crate::lex::{copy_range, text_eq, TokM, Token, TokenKind};

verus! {

/// One item of an expansion's output: a token, or an error met while
/// collecting a macro call.
#[derive(Debug)]
pub enum ExpandItem {
    Tok { token: Token },
    Error { kind: ProcessingErrorKind },
}

/// The model of an expansion item.
#[verifier::ext_equal]
pub ghost enum ExpandItemM {
    Tok { token: TokM },
    Error { kind: ProcessingErrorKindM },
}

impl View for ExpandItem {
    type V = ExpandItemM;

    open spec fn view(&self) -> ExpandItemM {
        match self {
            ExpandItem::Tok { token } => ExpandItemM::Tok { token: token@ },
            ExpandItem::Error { kind } => ExpandItemM::Error { kind: kind@ },
        }
    }
}

impl DeepView for ExpandItem {
    type V = ExpandItemM;

    open spec fn deep_view(&self) -> ExpandItemM {
        self.view()
    }
}

/// No identifier of the run has a definition.
pub open spec fn no_defined_idents(toks: Seq<TokM>, defs: Seq<DefM>) -> bool {
    forall|i: int|
        0 <= i < toks.len() ==> ((#[trigger] toks[i]).kind == TokenKind::Ident ==> !contains_name(
            defs,
            toks[i].text,
        ))
}

/// The items a run of tokens turns into when nothing expands.
pub open spec fn items_of_toks(toks: Seq<TokM>) -> Seq<ExpandItemM> {
    toks.map_values(|t: TokM| ExpandItemM::Tok { token: t })
}

/// Expansion emits tokens, and only the two macro-call errors.
pub open spec fn expand_item_ok(it: ExpandItemM) -> bool {
    match it {
        ExpandItemM::Tok { .. } => true,
        ExpandItemM::Error { kind } => kind == ProcessingErrorKindM::UnterminatedMacroCall
            || kind == ProcessingErrorKindM::ArgArityMismatch,
    }
}

pub open spec fn items_ok(s: Seq<ExpandItemM>) -> bool {
    forall|i: int| 0 <= i < s.len() ==> expand_item_ok(#[trigger] s[i])
}

/// Whether an expansion item is an error report.
pub open spec fn is_error_item(it: ExpandItemM) -> bool {
    it matches ExpandItemM::Error { .. }
}

/// Whether an expansion item is an identifier token emitted verbatim.
pub open spec fn is_verbatim_ident(it: ExpandItemM) -> bool {
    it matches ExpandItemM::Tok { token } && token.kind == TokenKind::Ident
}

/// From `lo` on, every macro-call error is immediately followed by the
/// offending identifier emitted verbatim: the failed call is reported,
/// then iteration resumes at the name itself.
pub open spec fn errors_paired(s: Seq<ExpandItemM>, lo: int) -> bool {
    forall|k: int|
        lo <= k < s.len() && is_error_item(#[trigger] s[k]) ==> k + 1 < s.len()
            && is_verbatim_ident(s[k + 1])
}

/// The pairing law composes across an extension of the output.
proof fn lemma_errors_paired_compose(pre: Seq<ExpandItemM>, post: Seq<ExpandItemM>, lo: int)
    requires
        0 <= lo <= pre.len() <= post.len(),
        forall|k: int| 0 <= k < pre.len() ==> #[trigger] post[k] == pre[k],
        errors_paired(pre, lo),
        errors_paired(post, pre.len() as int),
    ensures
        errors_paired(post, lo),
{
    assert forall|k: int|
        lo <= k < post.len() && is_error_item(#[trigger] post[k]) implies k + 1 < post.len()
        && is_verbatim_ident(post[k + 1]) by {
        if k < pre.len() {
            assert(pre[k] == post[k]);
            assert(k + 1 < pre.len());
            assert(post[k + 1] == pre[k + 1]);
        }
    }
}

/// The replacement list of an object-like definition known under a name.
pub open spec fn object_body(defs: Seq<DefM>, name: Seq<char>) -> Seq<TokM> {
    match crate::defs::lookup_name(defs, name) {
        DefM::Regular { define, .. } => define.body,
        _ => Seq::empty(),
    }
}

/// The run is one identifier token resolving, unpainted, to the given
/// definition entry.
pub open spec fn lone_macro_token(
    toks: Seq<TokM>,
    painted: Seq<Seq<char>>,
    defs: Seq<DefM>,
    entry: DefM,
) -> bool {
    toks.len() == 1 && toks[0].kind == TokenKind::Ident && !painted.contains(toks[0].text)
        && contains_name(defs, toks[0].text) && crate::defs::lookup_name(defs, toks[0].text)
        == entry
}

/// A lone identifier expanded to a single number token over its own range,
/// carrying the given value.
pub open spec fn expanded_to_number(
    before: Seq<ExpandItemM>,
    after: Seq<ExpandItemM>,
    t: TokM,
    v: int,
) -> bool {
    after.len() == before.len() + 1 && after.subrange(0, before.len() as int) == before && match
        after.last() {
        ExpandItemM::Tok { token } => token.kind == TokenKind::Number && dec_val(token.text) == v
            && token.start == t.start && token.end == t.end && crate::lex::kind_matches(
            token.text,
            TokenKind::Number,
        ),
        _ => false,
    }
}

/// The name resolves to an object-like definition whose replacement list
/// holds nothing further to expand.
pub open spec fn simple_object_macro(defs: Seq<DefM>, name: Seq<char>) -> bool {
    contains_name(defs, name) && match crate::defs::lookup_name(defs, name) {
        DefM::Regular { define, .. } => (define.params matches Option::None)
            && no_defined_idents(define.body, defs),
        _ => false,
    }
}

/// The painted set is sound: pairwise distinct names, every one defined.
pub open spec fn painted_wf(p: Seq<Seq<char>>, defs: Seq<DefM>) -> bool {
    &&& forall|i: int, j: int| 0 <= i < j < p.len() ==> #[trigger] p[i] != #[trigger] p[j]
    &&& forall|i: int| 0 <= i < p.len() ==> contains_name(defs, #[trigger] p[i])
}

/// Pairwise distinct names that all resolve in a duplicate-free table are
/// no more numerous than the table's entries.
pub proof fn lemma_painted_bound(p: Seq<Seq<char>>, defs: Seq<DefM>)
    requires
        painted_wf(p, defs),
        crate::defs::names_unique(defs),
    ensures
        p.len() <= defs.len(),
    decreases p.len(),
{
    if p.len() > 0 {
        let last = p.last();
        assert(contains_name(defs, last));
        let k = choose|k: int| 0 <= k < defs.len() && crate::defs::def_name_m(#[trigger] defs[k])
            == last;
        let defs2 = defs.remove(k);
        let p2 = p.drop_last();
        assert forall|i: int| 0 <= i < p2.len() implies contains_name(
            defs2,
            #[trigger] p2[i],
        ) by {
            assert(p2[i] == p[i]);
            assert(contains_name(defs, p[i]));
            let j = choose|j: int|
                0 <= j < defs.len() && crate::defs::def_name_m(#[trigger] defs[j]) == p[i];
            assert(p[i] != last);
            assert(j != k);
            let j2 = if j < k {
                j
            } else {
                j - 1
            };
            assert(defs2[j2] == defs[j]);
        }
        assert forall|a: int, b: int| 0 <= a < b < defs2.len() implies crate::defs::def_name_m(
            #[trigger] defs2[a],
        ) != crate::defs::def_name_m(#[trigger] defs2[b]) by {
            let a0 = if a < k {
                a
            } else {
                a + 1
            };
            let b0 = if b < k {
                b
            } else {
                b + 1
            };
            assert(defs2[a] == defs[a0] && defs2[b] == defs[b0]);
        }
        lemma_painted_bound(p2, defs2);
    }
}

/// Decimal digits of a 32-bit number.
pub fn u32_to_dec(v: u32) -> (r: Vec<char>)
    ensures
        dec_val(r@) == v as int,
        crate::lex::kind_matches(r@, TokenKind::Number),
    decreases v,
{
    let m = v % 10;
    let d: char = if m == 0 {
        '0'
    } else if m == 1 {
        '1'
    } else if m == 2 {
        '2'
    } else if m == 3 {
        '3'
    } else if m == 4 {
        '4'
    } else if m == 5 {
        '5'
    } else if m == 6 {
        '6'
    } else if m == 7 {
        '7'
    } else if m == 8 {
        '8'
    } else {
        '9'
    };
    assert(d as u32 == 48 + v as int % 10);
    if v < 10 {
        let mut r: Vec<char> = Vec::new();
        r.push(d);
        proof {
            assert(r@.len() == 1);
            assert(r@.drop_last() =~= Seq::<char>::empty());
            assert(dec_val(r@.drop_last()) == 0);
            assert(r@.last() == d);
            assert(dec_val(r@) == digit_val(d));
            assert(digit_val(d) == v as int % 10);
            assert(v as int % 10 == v as int);
            assert(crate::lex::is_digit_char(d));
        }
        r
    } else {
        let mut r = u32_to_dec(v / 10);
        let ghost pre = r@;
        r.push(d);
        proof {
            assert(r@.drop_last() =~= pre);
            assert(r@.last() == d);
            assert(v as int == (v as int / 10) * 10 + v as int % 10);
        }
        r
    }
}

/// Whether the painted set holds a name.
fn is_painted(painted: &Vec<Vec<char>>, name: &Vec<char>) -> (r: bool)
    ensures
        r == (exists|i: int|
            0 <= i < painted@.len() && #[trigger] painted.deep_view()[i] == name@),
{
    let n = painted.len();
    let mut i: usize = 0;
    while i < n
        invariant
            i <= n,
            n == painted@.len(),
            forall|j: int| 0 <= j < i ==> #[trigger] painted.deep_view()[j] != name@,
        decreases n - i,
    {
        proof {
            assert(painted.deep_view()[i as int] =~= painted@[i as int]@);
        }
        if text_eq(&painted[i], name) {
            return true;
        }
        i += 1;
    }
    false
}

/// Context the built-in macros draw from: the current file, the version in
/// force, and what is needed to compute 1-based line numbers (the offsets
/// of the line feeds of the file, and the shift a `#line` directive set).
#[derive(Debug)]
pub struct MacroCtx {
    pub file: u32,
    pub version: u32,
    pub nl_offsets: Vec<usize>,
    pub line_shift_active: bool,
    pub line_anchor: u32,
    pub line_declared: u32,
}

/// How many offsets are below the given one.
pub open spec fn count_lt(s: Seq<usize>, off: int) -> int
    decreases s.len(),
{
    if s.len() == 0 {
        0
    } else {
        count_lt(s.drop_last(), off) + if s.last() < off {
            1int
        } else {
            0int
        }
    }
}

/// The 1-based line of a character offset under a context: one more than
/// the number of line feeds before the offset, moved by the declared line
/// of the last `#line` directive, saturating at the 32-bit bound.
pub open spec fn line_value(ctx: MacroCtx, off: int) -> int {
    let c = count_lt(ctx.nl_offsets@, off);
    let phys: int = if c >= 0xFFFF_FFFF {
        0xFFFF_FFFF
    } else {
        c + 1
    };
    if ctx.line_shift_active {
        let delta: int = if phys >= ctx.line_anchor {
            phys - ctx.line_anchor
        } else {
            0
        };
        if ctx.line_declared + delta > 0xFFFF_FFFF {
            0xFFFF_FFFF
        } else {
            ctx.line_declared + delta
        }
    } else {
        phys
    }
}

impl MacroCtx {
    /// The 1-based line of a character offset, after any `#line` shift.
    pub fn line_for(&self, off: usize) -> (r: u32)
        ensures
            r as int == line_value(*self, off as int),
    {
        let n = self.nl_offsets.len();
        let mut c: usize = 0;
        let mut i: usize = 0;
        while i < n
            invariant
                i <= n,
                c <= i,
                n == self.nl_offsets@.len(),
                c == count_lt(self.nl_offsets@.subrange(0, i as int), off as int),
            decreases n - i,
        {
            proof {
                let sub = self.nl_offsets@.subrange(0, i as int + 1);
                assert(sub.drop_last() =~= self.nl_offsets@.subrange(0, i as int));
                assert(sub.last() == self.nl_offsets@[i as int]);
            }
            if self.nl_offsets[i] < off {
                c += 1;
            }
            i += 1;
        }
        proof {
            assert(self.nl_offsets@.subrange(0, n as int) =~= self.nl_offsets@);
        }
        let phys: u32 = if c >= 0xFFFF_FFFF as usize {
            0xFFFF_FFFF
        } else {
            (c as u32) + 1
        };
        if self.line_shift_active {
            let delta = phys.saturating_sub(self.line_anchor);
            self.line_declared.saturating_add(delta)
        } else {
            phys
        }
    }
}

/// Collect the arguments of a function-like macro call. `open_idx` points
/// at the `(`. Returns the argument token lists and the index just past the
/// matching `)`, or nothing when the call is never closed.
fn collect_args(toks: &Vec<Token>, open_idx: usize) -> (r: Option<(Vec<Vec<Token>>, usize)>)
    requires
        open_idx < toks@.len(),
    ensures
        match r {
            Option::Some(p) => open_idx < p.1 <= toks@.len(),
            Option::None => true,
        },
{
    let n = toks.len();
    let mut args: Vec<Vec<Token>> = Vec::new();
    let mut cur: Vec<Token> = Vec::new();
    let mut depth: usize = 1;
    let mut i: usize = open_idx + 1;
    while i < n
        invariant
            open_idx < i <= n,
            n == toks@.len(),
            1 <= depth <= i - open_idx,
        decreases n - i,
    {
        let t = &toks[i];
        if matches!(t.kind, TokenKind::Symbol) && t.text.len() == 1 && t.text[0] == '(' {
            depth += 1;
            cur.push(t.dup());
        } else if matches!(t.kind, TokenKind::Symbol) && t.text.len() == 1 && t.text[0] == ')' {
            if depth == 1 {
                args.push(cur);
                return Option::Some((args, i + 1));
            }
            depth -= 1;
            cur.push(t.dup());
        } else if matches!(t.kind, TokenKind::Symbol) && t.text.len() == 1 && t.text[0] == ','
            && depth == 1 {
            args.push(cur);
            cur = Vec::new();
        } else {
            cur.push(t.dup());
        }
        i += 1;
    }
    Option::None
}

/// Whether an argument list carries any significant token.
fn has_significant(arg: &Vec<Token>) -> (r: bool) {
    let n = arg.len();
    let mut i: usize = 0;
    while i < n
        invariant
            i <= n,
            n == arg@.len(),
        decreases n - i,
    {
        if !matches!(arg[i].kind, TokenKind::Whitespace) && !matches!(
            arg[i].kind,
            TokenKind::Comment,
        ) && !matches!(arg[i].kind, TokenKind::Newline) {
            return true;
        }
        i += 1;
    }
    false
}

/// Replace each parameter occurrence in the replacement list with the
/// corresponding argument's tokens.
fn substitute_params(
    body: &Vec<Token>,
    params: &Vec<Vec<char>>,
    args: &Vec<Vec<Token>>,
) -> (r: Vec<Token>)
    requires
        params@.len() == args@.len(),
{
    let n = body.len();
    let mut out: Vec<Token> = Vec::new();
    let mut i: usize = 0;
    while i < n
        invariant
            i <= n,
            n == body@.len(),
            params@.len() == args@.len(),
        decreases n - i,
    {
        let t = &body[i];
        let mut replaced = false;
        if matches!(t.kind, TokenKind::Ident) {
            let np = params.len();
            let mut k: usize = 0;
            while k < np
                invariant
                    k <= np,
                    np == params@.len(),
                    np == args@.len(),
                decreases np - k,
            {
                if text_eq(&params[k], &t.text) {
                    let arg = &args[k];
                    let na = arg.len();
                    let mut a: usize = 0;
                    while a < na
                        invariant
                            a <= na,
                            na == arg@.len(),
                        decreases na - a,
                    {
                        out.push(arg[a].dup());
                        a += 1;
                    }
                    replaced = true;
                    break;
                }
                k += 1;
            }
        }
        if !replaced {
            out.push(t.dup());
        }
        i += 1;
    }
    out
}

/// Index of the next token that is not whitespace, comment or line feed.
fn next_significant(toks: &Vec<Token>, j: usize) -> (r: usize)
    requires
        j <= toks@.len(),
    ensures
        j <= r <= toks@.len(),
    decreases toks@.len() - j,
{
    let n = toks.len();
    let mut r = j;
    while r < n && (matches!(toks[r].kind, TokenKind::Whitespace) || matches!(
        toks[r].kind,
        TokenKind::Comment,
    ) || matches!(toks[r].kind, TokenKind::Newline))
        invariant
            j <= r <= n,
            n == toks@.len(),
        decreases n - r,
    {
        r += 1;
    }
    r
}

/// Append one item; the output grows by exactly that item.
fn push_item(out: &mut Vec<ExpandItem>, it: ExpandItem)
    ensures
        final(out).deep_view() == old(out).deep_view().push(it@),
{
    let ghost pre = out.deep_view();
    let ghost itm = it@;
    out.push(it);
    proof {
        assert(out.deep_view() =~= pre.push(itm));
    }
}

/// Expand a run of tokens against the table, painting `painted`. Appends
/// tokens and macro-call errors to `out`. Where no identifier of the run is
/// defined, the run passes through unchanged.
#[verifier::rlimit(100)]
pub fn expand_run(
    defs: &DefinitionTable,
    painted: &Vec<Vec<char>>,
    toks: &Vec<Token>,
    ctx: &MacroCtx,
    out: &mut Vec<ExpandItem>,
)
    requires
        defs.wf(),
        painted_wf(painted.deep_view(), defs@),
    ensures
        final(out).deep_view().len() >= old(out).deep_view().len(),
        forall|k: int|
            0 <= k < old(out).deep_view().len() ==> #[trigger] final(out).deep_view()[k] == old(
                out,
            ).deep_view()[k],
        forall|k: int|
            old(out).deep_view().len() <= k < final(out).deep_view().len() ==> expand_item_ok(
                #[trigger] final(out).deep_view()[k],
            ),
        no_defined_idents(toks.deep_view(), defs@) ==> final(out).deep_view() == old(
            out,
        ).deep_view() + items_of_toks(toks.deep_view()),
        errors_paired(final(out).deep_view(), old(out).deep_view().len() as int),
        ({
            // A lone identifier naming an unpainted object-like macro is
            // substituted: its replacement list comes out in place of it.
            let tv = toks.deep_view();
            (tv.len() == 1 && tv[0].kind == TokenKind::Ident && !painted.deep_view().contains(
                tv[0].text,
            ) && simple_object_macro(defs@, tv[0].text)) ==> final(out).deep_view() == old(
                out,
            ).deep_view() + items_of_toks(object_body(defs@, tv[0].text))
        }),
        lone_macro_token(toks.deep_view(), painted.deep_view(), defs@, DefM::Version)
            ==> expanded_to_number(
            old(out).deep_view(),
            final(out).deep_view(),
            toks.deep_view()[0],
            ctx.version as int,
        ),
        lone_macro_token(toks.deep_view(), painted.deep_view(), defs@, DefM::File)
            ==> expanded_to_number(
            old(out).deep_view(),
            final(out).deep_view(),
            toks.deep_view()[0],
            ctx.file as int,
        ),
        lone_macro_token(toks.deep_view(), painted.deep_view(), defs@, DefM::Line)
            ==> expanded_to_number(
            old(out).deep_view(),
            final(out).deep_view(),
            toks.deep_view()[0],
            line_value(*ctx, toks.deep_view()[0].start),
        ),
        ({
            // A lone use of a function-like macro with no call, and a lone
            // painted identifier, come out verbatim.
            let tv = toks.deep_view();
            (tv.len() == 1 && tv[0].kind == TokenKind::Ident && ((painted.deep_view().contains(
                tv[0].text,
            ) && contains_name(defs@, tv[0].text)) || (match crate::defs::lookup_name(
                defs@,
                tv[0].text,
            ) {
                DefM::Regular { define, .. } => contains_name(defs@, tv[0].text)
                    && !painted.deep_view().contains(tv[0].text) && (define.params
                    matches Option::Some { .. }),
                _ => false,
            }))) ==> final(out).deep_view() == old(out).deep_view().push(
                (ExpandItemM::Tok { token: tv[0] }),
            )
        }),
    decreases defs@.len() - painted.deep_view().len(),
{
    proof {
        lemma_painted_bound(painted.deep_view(), defs@);
    }
    let ghost base = out.deep_view();
    let ghost obj1 = toks.deep_view().len() == 1 && toks.deep_view()[0].kind == TokenKind::Ident
        && !painted.deep_view().contains(toks.deep_view()[0].text) && simple_object_macro(
        defs@,
        toks.deep_view()[0].text,
    );
    let ghost verb1 = toks.deep_view().len() == 1 && toks.deep_view()[0].kind
        == TokenKind::Ident && ((painted.deep_view().contains(toks.deep_view()[0].text)
        && contains_name(defs@, toks.deep_view()[0].text)) || (match crate::defs::lookup_name(
        defs@,
        toks.deep_view()[0].text,
    ) {
        DefM::Regular { define, .. } => contains_name(defs@, toks.deep_view()[0].text)
            && !painted.deep_view().contains(toks.deep_view()[0].text) && (define.params
            matches Option::Some { .. }),
        _ => false,
    }));
    let ghost bver = lone_macro_token(toks.deep_view(), painted.deep_view(), defs@, DefM::Version);
    let ghost bfile = lone_macro_token(toks.deep_view(), painted.deep_view(), defs@, DefM::File);
    let ghost bline = lone_macro_token(toks.deep_view(), painted.deep_view(), defs@, DefM::Line);
    let n = toks.len();
    let mut i: usize = 0;
    while i < n
        invariant
            i <= n,
            n == toks@.len(),
            defs.wf(),
            painted_wf(painted.deep_view(), defs@),
            out.deep_view().len() >= base.len(),
            forall|k: int|
                0 <= k < base.len() ==> #[trigger] out.deep_view()[k] == base[k],
            forall|k: int|
                base.len() <= k < out.deep_view().len() ==> expand_item_ok(
                    #[trigger] out.deep_view()[k],
                ),
            errors_paired(out.deep_view(), base.len() as int),
            no_defined_idents(toks.deep_view(), defs@) ==> out.deep_view() == base
                + items_of_toks(toks.deep_view().subrange(0, i as int)),
            obj1 == (toks.deep_view().len() == 1 && toks.deep_view()[0].kind
                == TokenKind::Ident && !painted.deep_view().contains(toks.deep_view()[0].text)
                && simple_object_macro(defs@, toks.deep_view()[0].text)),
            obj1 && i == 0 ==> out.deep_view() == base,
            obj1 && i > 0 ==> out.deep_view() == base + items_of_toks(
                object_body(defs@, toks.deep_view()[0].text),
            ),
            bver == lone_macro_token(toks.deep_view(), painted.deep_view(), defs@, DefM::Version),
            bfile == lone_macro_token(toks.deep_view(), painted.deep_view(), defs@, DefM::File),
            bline == lone_macro_token(toks.deep_view(), painted.deep_view(), defs@, DefM::Line),
            (bver || bfile || bline) && i == 0 ==> out.deep_view() == base,
            bver && i > 0 ==> expanded_to_number(
                base,
                out.deep_view(),
                toks.deep_view()[0],
                ctx.version as int,
            ),
            bfile && i > 0 ==> expanded_to_number(
                base,
                out.deep_view(),
                toks.deep_view()[0],
                ctx.file as int,
            ),
            bline && i > 0 ==> expanded_to_number(
                base,
                out.deep_view(),
                toks.deep_view()[0],
                line_value(*ctx, toks.deep_view()[0].start),
            ),
            verb1 == (toks.deep_view().len() == 1 && toks.deep_view()[0].kind
                == TokenKind::Ident && ((painted.deep_view().contains(toks.deep_view()[0].text)
                && contains_name(defs@, toks.deep_view()[0].text)) || (
            match crate::defs::lookup_name(defs@, toks.deep_view()[0].text) {
                DefM::Regular { define, .. } => contains_name(defs@, toks.deep_view()[0].text)
                    && !painted.deep_view().contains(toks.deep_view()[0].text) && (define.params
                    matches Option::Some { .. }),
                _ => false,
            }))),
            verb1 && i == 0 ==> out.deep_view() == base,
            verb1 && i > 0 ==> out.deep_view() == base.push(
                (ExpandItemM::Tok { token: toks.deep_view()[0] }),
            ),
        decreases n - i,
    {
        let ghost pre = out.deep_view();
        let ghost gi = i as int;
        let t = &toks[i];
        let mut advanced = false;
        if matches!(t.kind, TokenKind::Ident) && !is_painted(painted, &t.text) {
            let looked = defs.lookup(&t.text);
            match looked {
                Option::Some(dref) => {
                    proof {
                        assert(contains_name(defs@, toks.deep_view()[i as int].text));
                    }
                    match dref {
                        Definition::Line => {
                            let line = ctx.line_for(t.start);
                            let tok = Token {
                                kind: TokenKind::Number,
                                start: t.start,
                                end: t.end,
                                text: u32_to_dec(line),
                            };
                            push_item(out, ExpandItem::Tok { token: tok });
                            i += 1;
                            advanced = true;
                        },
                        Definition::File => {
                            let tok = Token {
                                kind: TokenKind::Number,
                                start: t.start,
                                end: t.end,
                                text: u32_to_dec(ctx.file),
                            };
                            push_item(out, ExpandItem::Tok { token: tok });
                            i += 1;
                            advanced = true;
                        },
                        Definition::Version => {
                            let tok = Token {
                                kind: TokenKind::Number,
                                start: t.start,
                                end: t.end,
                                text: u32_to_dec(ctx.version),
                            };
                            push_item(out, ExpandItem::Tok { token: tok });
                            i += 1;
                            advanced = true;
                        },
                        Definition::Regular { define, .. } => {
                            let has_params = matches!(define.params, Option::Some(_));
                            if !has_params {
                                // Object-like: rescan the replacement with
                                // this name painted.
                                let body = copy_body(define);
                                let mut painted2 = copy_painted(painted);
                                let pname = copy_range(&t.text, 0, t.text.len());
                                proof {
                                    assert(pname@ =~= t.text@);
                                }
                                painted2.push(pname);
                                proof {
                                    assert(painted2.deep_view() =~~= painted.deep_view().push(
                                        toks.deep_view()[i as int].text,
                                    ));
                                    lemma_painted_push(
                                        painted.deep_view(),
                                        defs@,
                                        toks.deep_view()[i as int].text,
                                    );
                                    assert(painted2.deep_view().len() == painted.deep_view().len()
                                        + 1);
                                    lemma_painted_bound(painted2.deep_view(), defs@);
                                }
                                proof {
                                    if obj1 {
                                        assert(body.deep_view() == object_body(
                                            defs@,
                                            toks.deep_view()[0].text,
                                        ));
                                        assert(no_defined_idents(body.deep_view(), defs@));
                                    }
                                }
                                expand_run(defs, &painted2, &body, ctx, out);
                                i += 1;
                                advanced = true;
                            } else {
                                // Function-like: a call needs a `(` as the
                                // next significant token.
                                let j = next_significant(toks, i + 1);
                                let is_call = j < n && matches!(toks[j].kind, TokenKind::Symbol)
                                    && toks[j].text.len() == 1 && {
                                    let c = toks[j].text[0];
                                    c == '('
                                };
                                if !is_call {
                                    push_item(out, ExpandItem::Tok { token: t.dup() });
                                    i += 1;
                                    advanced = true;
                                } else {
                                    match collect_args(toks, j) {
                                        Option::None => {
                                            push_item(
                                                out,
                                                ExpandItem::Error {
                                                    kind:
                                                        ProcessingErrorKind::UnterminatedMacroCall,
                                                },
                                            );
                                            push_item(out, ExpandItem::Tok { token: t.dup() });
                                            i += 1;
                                            advanced = true;
                                        },
                                        Option::Some(pair) => {
                                            let (mut args, after) = pair;
                                            let np = params_len(define);
                                            if np == 0 && args.len() == 1 && !has_significant(
                                                &args[0],
                                            ) {
                                                args = Vec::new();
                                            }
                                            if args.len() != np {
                                                push_item(
                                                    out,
                                                    ExpandItem::Error {
                                                        kind:
                                                            ProcessingErrorKind::ArgArityMismatch,
                                                    },
                                                );
                                                push_item(out, ExpandItem::Tok { token: t.dup() });
                                                i += 1;
                                                advanced = true;
                                            } else {
                                                let substituted = substitute_body(define, &args);
                                                let mut painted2 = copy_painted(painted);
                                                let pname = copy_range(&t.text, 0, t.text.len());
                                                proof {
                                                    assert(pname@ =~= t.text@);
                                                }
                                                painted2.push(pname);
                                                proof {
                                                    assert(painted2.deep_view()
                                                        =~~= painted.deep_view().push(
                                                        toks.deep_view()[i as int].text,
                                                    ));
                                                    lemma_painted_push(
                                                        painted.deep_view(),
                                                        defs@,
                                                        toks.deep_view()[i as int].text,
                                                    );
                                                    assert(painted2.deep_view().len()
                                                        == painted.deep_view().len() + 1);
                                                    lemma_painted_bound(
                                                        painted2.deep_view(),
                                                        defs@,
                                                    );
                                                }
                                                expand_run(defs, &painted2, &substituted, ctx, out);
                                                i = after;
                                                advanced = true;
                                            }
                                        },
                                    }
                                }
                            }
                        },
                    }
                },
                Option::None => {},
            }
        }
        if !advanced {
            proof {
                if obj1 {
                    assert(contains_name(defs@, toks.deep_view()[0].text));
                    assert(false);
                }
            }
            push_item(out, ExpandItem::Tok { token: t.dup() });
            i += 1;
        }
        proof {
            assert(errors_paired(out.deep_view(), pre.len() as int));
            lemma_errors_paired_compose(pre, out.deep_view(), base.len() as int);
            if (bver || bfile || bline) && i > 0 {
                assert(out.deep_view().subrange(0, base.len() as int) =~= base);
            }
            if no_defined_idents(toks.deep_view(), defs@) {
                assert(toks.deep_view()[gi].kind == TokenKind::Ident ==> !contains_name(
                    defs@,
                    toks.deep_view()[gi].text,
                ));
                assert(i == gi + 1);
                assert(out.deep_view() =~= pre.push(
                    ExpandItemM::Tok { token: toks.deep_view()[gi] },
                ));
                assert(out.deep_view() =~= base + items_of_toks(
                    toks.deep_view().subrange(0, i as int),
                ));
            }
        }
    }
    proof {
        if no_defined_idents(toks.deep_view(), defs@) {
            assert(toks.deep_view().subrange(0, n as int) =~= toks.deep_view());
        }
    }
}

/// A fresh copy of a regular definition's replacement list.
fn copy_body(define: &crate::events::Define) -> (r: Vec<Token>)
    ensures
        r.deep_view() == define.body.deep_view(),
{
    let n = define.body.len();
    let mut r: Vec<Token> = Vec::new();
    let mut i: usize = 0;
    while i < n
        invariant
            i <= n,
            n == define.body@.len(),
            r.deep_view() == define.body.deep_view().subrange(0, i as int),
        decreases n - i,
    {
        let ghost prev = r.deep_view();
        let t = define.body[i].dup();
        let ghost tm = t@;
        r.push(t);
        i += 1;
        proof {
            assert(r.deep_view() =~= prev.push(tm));
            assert(r.deep_view() =~= define.body.deep_view().subrange(0, i as int));
        }
    }
    proof {
        assert(r.deep_view() =~= define.body.deep_view());
    }
    r
}

/// The number of parameters of a definition (zero for object-like).
fn params_len(define: &crate::events::Define) -> (r: usize) {
    match &define.params {
        Option::Some(ps) => ps.len(),
        Option::None => 0,
    }
}

/// The replacement list with parameters substituted by the call's
/// arguments.
fn substitute_body(define: &crate::events::Define, args: &Vec<Vec<Token>>) -> (r: Vec<Token>) {
    match &define.params {
        Option::Some(ps) => {
            if ps.len() == args.len() {
                substitute_params(&define.body, ps, args)
            } else {
                copy_body(define)
            }
        },
        Option::None => copy_body(define),
    }
}

/// A fresh copy of the painted set.
fn copy_painted(painted: &Vec<Vec<char>>) -> (r: Vec<Vec<char>>)
    ensures
        r.deep_view() == painted.deep_view(),
{
    let n = painted.len();
    let mut r: Vec<Vec<char>> = Vec::new();
    let mut i: usize = 0;
    while i < n
        invariant
            i <= n,
            n == painted@.len(),
            r.deep_view() == painted.deep_view().subrange(0, i as int),
        decreases n - i,
    {
        let ghost prev = r.deep_view();
        let p = copy_range(&painted[i], 0, painted[i].len());
        proof {
            assert(p@ =~= painted@[i as int]@);
        }
        let ghost pm = p.deep_view();
        r.push(p);
        i += 1;
        proof {
            assert(r.deep_view() =~= prev.push(pm));
            assert(pm == painted@[i - 1].deep_view());
            assert(r.deep_view() =~= painted.deep_view().subrange(0, i as int));
        }
    }
    proof {
        assert(r.deep_view() =~= painted.deep_view());
    }
    r
}

/// Painting one more defined, unpainted name keeps the painted set sound.
proof fn lemma_painted_push(p: Seq<Seq<char>>, defs: Seq<DefM>, name: Seq<char>)
    requires
        painted_wf(p, defs),
        contains_name(defs, name),
        forall|i: int| 0 <= i < p.len() ==> #[trigger] p[i] != name,
    ensures
        painted_wf(p.push(name), defs),
{
    let q = p.push(name);
    assert forall|i: int, j: int|
        0 <= i < j < q.len() implies #[trigger] q[i] != #[trigger] q[j] by {
        if j == q.len() - 1 {
            assert(q[j] == name);
            assert(q[i] == p[i]);
        } else {
            assert(q[i] == p[i] && q[j] == p[j]);
        }
    }
    assert forall|i: int| 0 <= i < q.len() implies contains_name(defs, #[trigger] q[i]) by {
        if i == q.len() - 1 {
            assert(q[i] == name);
        } else {
            assert(q[i] == p[i]);
        }
    }
}

} // verus!
