//! Directive decoders: from a directive node's tokens to a validated
//! record, or to the error that says what is wrong with the line.

use vstd::prelude::*;

use crate::cst::{skip_blanks, NodeKind};
use crate::events::{
    Define, DirectiveKind, Extension, ExtensionBehavior, ExtensionName, ProcessingErrorKind,
    Profile, Version,
};
use crate::lex::{
    copy_range, line_end_at, sig_at, lemma_line_end_unique, lemma_sig_at_unique, text_eq,
    text_eq_str, TokM, Token, TokenKind,
};

verus! {

/// The numeric value of a digit character.
pub open spec fn digit_val(c: char) -> int {
    c as u32 - 48
}

/// The value of a decimal digit string.
pub open spec fn dec_val(s: Seq<char>) -> int
    decreases s.len(),
{
    if s.len() == 0 {
        0
    } else {
        dec_val(s.drop_last()) * 10 + digit_val(s.last())
    }
}

/// A digit string's value is not negative.
pub proof fn lemma_dec_val_nonneg(s: Seq<char>)
    requires
        forall|i: int| 0 <= i < s.len() ==> crate::lex::is_digit_char(#[trigger] s[i]),
    ensures
        dec_val(s) >= 0,
    decreases s.len(),
{
    if s.len() > 0 {
        lemma_dec_val_nonneg(s.drop_last());
    }
}

/// A digit string's value is at least the value of any of its prefixes.
pub proof fn lemma_dec_val_prefix(s: Seq<char>, k: int)
    requires
        forall|i: int| 0 <= i < s.len() ==> crate::lex::is_digit_char(#[trigger] s[i]),
        0 <= k <= s.len(),
    ensures
        dec_val(s.subrange(0, k)) <= dec_val(s),
    decreases s.len(),
{
    if k == s.len() {
        assert(s.subrange(0, k) =~= s);
    } else {
        let t = s.drop_last();
        assert(forall|i: int| 0 <= i < t.len() ==> crate::lex::is_digit_char(#[trigger] t[i]));
        assert(s.subrange(0, k) =~= t.subrange(0, k));
        lemma_dec_val_prefix(t, k);
        lemma_dec_val_nonneg(t);
    }
}

/// Parse a digit string into a 32-bit number. Returns nothing exactly when
/// some character is not a digit or the value does not fit.
pub fn parse_number(text: &Vec<char>) -> (r: Option<u32>)
    ensures
        match r {
            Option::Some(v) => (forall|i: int|
                0 <= i < text@.len() ==> crate::lex::is_digit_char(#[trigger] text@[i])) && v
                as int == dec_val(text@),
            Option::None => (exists|i: int|
                0 <= i < text@.len() && !crate::lex::is_digit_char(#[trigger] text@[i]))
                || dec_val(text@) > u32::MAX,
        },
{
    let n = text.len();
    let mut value: u64 = 0;
    let mut i: usize = 0;
    while i < n
        invariant
            i <= n,
            n == text@.len(),
            forall|j: int| 0 <= j < i ==> crate::lex::is_digit_char(#[trigger] text@[j]),
            value <= u32::MAX,
            value as int == dec_val(text@.subrange(0, i as int)),
        decreases n - i,
    {
        let c = text[i];
        if !crate::lex::digit_char(c) {
            return Option::None;
        }
        let d: u64 = (c as u32 - 48) as u64;
        let nv: u64 = value * 10 + d;
        proof {
            assert(text@.subrange(0, i as int + 1).drop_last() =~= text@.subrange(0, i as int));
            assert(text@.subrange(0, i as int + 1).last() == text@[i as int]);
        }
        if nv > 0xFFFF_FFFF {
            proof {
                if forall|j: int| 0 <= j < text@.len() ==> crate::lex::is_digit_char(
                    #[trigger] text@[j],
                ) {
                    lemma_dec_val_prefix(text@, i as int + 1);
                }
            }
            return Option::None;
        }
        value = nv;
        i += 1;
    }
    proof {
        assert(text@.subrange(0, n as int) =~= text@);
    }
    Option::Some(value as u32)
}

/// The index of the first argument token of a directive line: what stands
/// after the `#` and the directive keyword.
pub open spec fn spec_args_start(toks: Seq<TokM>) -> int {
    let h = sig_at(toks, 0);
    if h >= toks.len() {
        toks.len() as int
    } else {
        let w = sig_at(toks, h + 1);
        if w >= toks.len() {
            toks.len() as int
        } else {
            sig_at(toks, w + 1)
        }
    }
}

/// Whether the index is at or past the end of the directive line.
pub open spec fn spec_at_line_end(toks: Seq<TokM>, i: int) -> bool {
    i >= toks.len() || toks[i].kind == TokenKind::Newline
}

/// Whether an index is at or past the end of the directive line: past the
/// last token, or at the trailing line feed.
fn at_line_end(toks: &Vec<Token>, i: usize) -> (r: bool)
    requires
        i <= toks@.len(),
    ensures
        r == (i == toks@.len() || toks@[i as int].kind == TokenKind::Newline),
{
    i == toks.len() || matches!(toks[i].kind, TokenKind::Newline)
}

/// Append a token's text to a buffer.
fn append_text(dst: &mut Vec<char>, t: &Token)
    ensures
        final(dst)@ == old(dst)@ + t.text@,
{
    let mut j: usize = 0;
    let n = t.text.len();
    while j < n
        invariant
            j <= n,
            n == t.text@.len(),
            dst@ == old(dst)@ + t.text@.subrange(0, j as int),
        decreases n - j,
    {
        dst.push(t.text[j]);
        j += 1;
        assert(dst@ =~= old(dst)@ + t.text@.subrange(0, j as int));
    }
    assert(dst@ =~= old(dst)@ + t.text@);
}

/// No two parameter names repeat.
pub open spec fn params_unique(ps: Seq<Seq<char>>) -> bool {
    forall|i: int, j: int| 0 <= i < j < ps.len() ==> #[trigger] ps[i] != #[trigger] ps[j]
}

/// Whether a parameter list already holds a name.
fn params_contain(ps: &Vec<Vec<char>>, name: &Vec<char>) -> (r: bool)
    ensures
        r == (exists|i: int| 0 <= i < ps@.len() && #[trigger] ps.deep_view()[i] == name@),
{
    let n = ps.len();
    let mut i: usize = 0;
    while i < n
        invariant
            i <= n,
            n == ps@.len(),
            forall|j: int| 0 <= j < i ==> #[trigger] ps.deep_view()[j] != name@,
        decreases n - i,
    {
        proof {
            assert(ps.deep_view()[i as int] =~= ps@[i as int]@);
        }
        if text_eq(&ps[i], name) {
            assert(ps.deep_view()[i as int] == name@);
            return true;
        }
        i += 1;
    }
    false
}

/// Skip the `#` and the directive keyword; the result is the index of the
/// first token of the directive's arguments.
fn args_start(toks: &Vec<Token>) -> (r: usize)
    ensures
        r <= toks@.len(),
        r as int == spec_args_start(toks.deep_view()),
{
    let h = skip_blanks(toks, 0);
    proof {
        lemma_sig_at_unique(toks.deep_view(), 0, h as int);
    }
    if h >= toks.len() {
        return toks.len();
    }
    let w = skip_blanks(toks, h + 1);
    proof {
        lemma_sig_at_unique(toks.deep_view(), h as int + 1, w as int);
    }
    if w >= toks.len() {
        return toks.len();
    }
    let r = skip_blanks(toks, w + 1);
    proof {
        lemma_sig_at_unique(toks.deep_view(), w as int + 1, r as int);
    }
    r
}

/// What single-identifier decoding yields: the line must hold one
/// identifier argument and nothing else. A missing or ill-shaped
/// identifier is a malformed directive; extra tokens after it are
/// trailing tokens.
#[verifier::opaque]
pub open spec fn single_ident_result(tv: Seq<TokM>) -> Result<
    Seq<char>,
    crate::events::ProcessingErrorKindM,
> {
    let a = spec_args_start(tv);
    if spec_at_line_end(tv, a) || tv[a].kind != TokenKind::Ident {
        Result::Err(crate::events::ProcessingErrorKindM::MalformedDefine)
    } else if !spec_at_line_end(tv, sig_at(tv, a + 1)) {
        Result::Err(crate::events::ProcessingErrorKindM::TrailingTokens)
    } else {
        Result::Ok(tv[a].text)
    }
}

/// Decode `#ifdef`, `#ifndef` or `#undef`: one identifier, nothing after
/// it.
pub fn decode_single_ident(toks: &Vec<Token>) -> (r: Result<Vec<char>, ProcessingErrorKind>)
    requires
        crate::lex::toks_shaped(toks.deep_view()),
    ensures
        match r {
            Result::Ok(ident) => single_ident_result(toks.deep_view()) == Result::<
                Seq<char>,
                crate::events::ProcessingErrorKindM,
            >::Ok(ident@) && crate::lex::kind_matches(ident@, TokenKind::Ident),
            Result::Err(e) => single_ident_result(toks.deep_view()) == Result::<
                Seq<char>,
                crate::events::ProcessingErrorKindM,
            >::Err(e@) && ((e@ matches crate::events::ProcessingErrorKindM::MalformedDefine) || (
            e@ matches crate::events::ProcessingErrorKindM::TrailingTokens)),
        },
{
    proof {
        reveal(single_ident_result);
    }
    let nn: usize = toks.len();
    let a = args_start(toks);
    if at_line_end(toks, a) || !matches!(toks[a].kind, TokenKind::Ident) {
        return Result::Err(ProcessingErrorKind::MalformedDefine);
    }
    assert(a < nn);
    let ident = copy_range(&toks[a].text, 0, toks[a].text.len());
    let t = skip_blanks(toks, a + 1);
    proof {
        lemma_sig_at_unique(toks.deep_view(), a as int + 1, t as int);
    }
    if !at_line_end(toks, t) {
        return Result::Err(ProcessingErrorKind::TrailingTokens);
    }
    proof {
        assert(ident@ =~= toks@[a as int].text@);
        assert(crate::lex::kind_matches(
            toks.deep_view()[a as int].text,
            toks.deep_view()[a as int].kind,
        ));
    }
    Result::Ok(ident)
}

/// The profile a profile word names, or nothing for an unknown word.
pub open spec fn spec_profile_of(text: Seq<char>) -> Option<Profile> {
    if text == "core"@ {
        Option::Some(Profile::Core)
    } else if text == "compatibility"@ {
        Option::Some(Profile::Compatibility)
    } else if text == "es"@ {
        Option::Some(Profile::Es)
    } else {
        Option::None
    }
}

/// What version decoding yields: a number that fits, an optional known
/// profile word, nothing else on the line.
#[verifier::opaque]
pub open spec fn version_result(tv: Seq<TokM>) -> Result<
    Version,
    crate::events::ProcessingErrorKindM,
> {
    let a = spec_args_start(tv);
    if spec_at_line_end(tv, a) || tv[a].kind != TokenKind::Number || dec_val(tv[a].text)
        > u32::MAX {
        Result::Err(crate::events::ProcessingErrorKindM::MalformedVersion)
    } else {
        let number = dec_val(tv[a].text) as u32;
        let p = sig_at(tv, a + 1);
        if spec_at_line_end(tv, p) {
            Result::Ok(Version { number, profile: Profile::NoProfile })
        } else if tv[p].kind != TokenKind::Ident {
            Result::Err(crate::events::ProcessingErrorKindM::MalformedVersion)
        } else {
            match spec_profile_of(tv[p].text) {
                Option::None => Result::Err(
                    crate::events::ProcessingErrorKindM::UnknownProfile,
                ),
                Option::Some(profile) => if spec_at_line_end(tv, sig_at(tv, p + 1)) {
                    Result::Ok(Version { number, profile })
                } else {
                    Result::Err(crate::events::ProcessingErrorKindM::MalformedVersion)
                },
            }
        }
    }
}

/// Decode `#version`: an integer, then an optional profile word.
pub fn decode_version(toks: &Vec<Token>) -> (r: Result<Version, ProcessingErrorKind>)
    requires
        crate::lex::toks_shaped(toks.deep_view()),
    ensures
        match r {
            Result::Ok(v) => version_result(toks.deep_view()) == Result::<
                Version,
                crate::events::ProcessingErrorKindM,
            >::Ok(v),
            Result::Err(e) => version_result(toks.deep_view()) == Result::<
                Version,
                crate::events::ProcessingErrorKindM,
            >::Err(e@) && ((e@ matches crate::events::ProcessingErrorKindM::MalformedVersion) || (
            e@ matches crate::events::ProcessingErrorKindM::UnknownProfile)),
        },
{
    proof {
        reveal(version_result);
    }
    let nn: usize = toks.len();
    let a = args_start(toks);
    if at_line_end(toks, a) || !matches!(toks[a].kind, TokenKind::Number) {
        return Result::Err(ProcessingErrorKind::MalformedVersion);
    }
    assert(a < nn);
    proof {
        assert(crate::lex::kind_matches(
            toks.deep_view()[a as int].text,
            toks.deep_view()[a as int].kind,
        ));
    }
    let number = match parse_number(&toks[a].text) {
        Option::Some(v) => v,
        Option::None => {
            proof {
                assert(forall|i: int|
                    0 <= i < toks@[a as int].text@.len() ==> crate::lex::is_digit_char(
                        #[trigger] toks@[a as int].text@[i],
                    ));
            }
            return Result::Err(ProcessingErrorKind::MalformedVersion);
        },
    };
    let p = skip_blanks(toks, a + 1);
    proof {
        lemma_sig_at_unique(toks.deep_view(), a as int + 1, p as int);
    }
    if at_line_end(toks, p) {
        return Result::Ok(Version { number, profile: Profile::NoProfile });
    }
    assert(p < nn);
    if !matches!(toks[p].kind, TokenKind::Ident) {
        return Result::Err(ProcessingErrorKind::MalformedVersion);
    }
    let profile = if text_eq_str(&toks[p].text, "core") {
        Profile::Core
    } else if text_eq_str(&toks[p].text, "compatibility") {
        Profile::Compatibility
    } else if text_eq_str(&toks[p].text, "es") {
        Profile::Es
    } else {
        return Result::Err(ProcessingErrorKind::UnknownProfile);
    };
    let t = skip_blanks(toks, p + 1);
    proof {
        lemma_sig_at_unique(toks.deep_view(), p as int + 1, t as int);
    }
    if !at_line_end(toks, t) {
        return Result::Err(ProcessingErrorKind::MalformedVersion);
    }
    Result::Ok(Version { number, profile })
}

/// The behavior a behavior word names, or nothing for an unknown word.
pub open spec fn spec_behavior_of(text: Seq<char>) -> Option<ExtensionBehavior> {
    if text == "require"@ {
        Option::Some(ExtensionBehavior::Require)
    } else if text == "enable"@ {
        Option::Some(ExtensionBehavior::Enable)
    } else if text == "warn"@ {
        Option::Some(ExtensionBehavior::Warn)
    } else if text == "disable"@ {
        Option::Some(ExtensionBehavior::Disable)
    } else {
        Option::None
    }
}

/// What extension decoding yields: a name (or the word `all`), a colon,
/// one of the four behavior words, nothing else on the line.
#[verifier::opaque]
pub open spec fn extension_result(tv: Seq<TokM>) -> Result<
    crate::events::ExtensionM,
    crate::events::ProcessingErrorKindM,
> {
    let a = spec_args_start(tv);
    if spec_at_line_end(tv, a) || tv[a].kind != TokenKind::Ident {
        Result::Err(crate::events::ProcessingErrorKindM::MalformedExtension)
    } else {
        let c = sig_at(tv, a + 1);
        if spec_at_line_end(tv, c) || tv[c].kind != TokenKind::Symbol || tv[c].text != ":"@ {
            Result::Err(crate::events::ProcessingErrorKindM::MalformedExtension)
        } else {
            let b = sig_at(tv, c + 1);
            if spec_at_line_end(tv, b) || tv[b].kind != TokenKind::Ident {
                Result::Err(crate::events::ProcessingErrorKindM::MalformedExtension)
            } else {
                match spec_behavior_of(tv[b].text) {
                    Option::None => Result::Err(
                        crate::events::ProcessingErrorKindM::MalformedExtension,
                    ),
                    Option::Some(behavior) => if !spec_at_line_end(tv, sig_at(tv, b + 1)) {
                        Result::Err(crate::events::ProcessingErrorKindM::MalformedExtension)
                    } else {
                        Result::Ok(
                            crate::events::ExtensionM {
                                name: if tv[a].text == "all"@ {
                                    crate::events::ExtensionNameM::All
                                } else {
                                    crate::events::ExtensionNameM::Named { name: tv[a].text }
                                },
                                behavior,
                            },
                        )
                    },
                }
            }
        }
    }
}

/// Decode `#extension`: `name : behavior`.
pub fn decode_extension(toks: &Vec<Token>) -> (r: Result<Extension, ProcessingErrorKind>)
    ensures
        match r {
            Result::Ok(ext) => extension_result(toks.deep_view()) == Result::<
                crate::events::ExtensionM,
                crate::events::ProcessingErrorKindM,
            >::Ok(ext@),
            Result::Err(e) => extension_result(toks.deep_view()) == Result::<
                crate::events::ExtensionM,
                crate::events::ProcessingErrorKindM,
            >::Err(e@) && (e@ matches crate::events::ProcessingErrorKindM::MalformedExtension),
        },
{
    proof {
        reveal(extension_result);
    }
    let nn: usize = toks.len();
    let a = args_start(toks);
    if at_line_end(toks, a) || !matches!(toks[a].kind, TokenKind::Ident) {
        return Result::Err(ProcessingErrorKind::MalformedExtension);
    }
    assert(a < nn);
    let name = if text_eq_str(&toks[a].text, "all") {
        ExtensionName::All
    } else {
        let named = copy_range(&toks[a].text, 0, toks[a].text.len());
        proof {
            assert(named@ =~= toks@[a as int].text@);
        }
        ExtensionName::Named { name: named }
    };
    let c = skip_blanks(toks, a + 1);
    proof {
        lemma_sig_at_unique(toks.deep_view(), a as int + 1, c as int);
    }
    if at_line_end(toks, c) || !matches!(toks[c].kind, TokenKind::Symbol) || !text_eq_str(
        &toks[c].text,
        ":",
    ) {
        return Result::Err(ProcessingErrorKind::MalformedExtension);
    }
    assert(c < nn);
    let b = skip_blanks(toks, c + 1);
    proof {
        lemma_sig_at_unique(toks.deep_view(), c as int + 1, b as int);
    }
    if at_line_end(toks, b) || !matches!(toks[b].kind, TokenKind::Ident) {
        return Result::Err(ProcessingErrorKind::MalformedExtension);
    }
    assert(b < nn);
    let behavior = if text_eq_str(&toks[b].text, "require") {
        ExtensionBehavior::Require
    } else if text_eq_str(&toks[b].text, "enable") {
        ExtensionBehavior::Enable
    } else if text_eq_str(&toks[b].text, "warn") {
        ExtensionBehavior::Warn
    } else if text_eq_str(&toks[b].text, "disable") {
        ExtensionBehavior::Disable
    } else {
        return Result::Err(ProcessingErrorKind::MalformedExtension);
    };
    let t = skip_blanks(toks, b + 1);
    proof {
        lemma_sig_at_unique(toks.deep_view(), b as int + 1, t as int);
    }
    if !at_line_end(toks, t) {
        return Result::Err(ProcessingErrorKind::MalformedExtension);
    }
    Result::Ok(Extension { name, behavior })
}

/// A replacement or argument list with its trailing blanks and comments
/// dropped.
pub open spec fn trim_trailing(s: Seq<TokM>) -> Seq<TokM>
    decreases s.len(),
{
    if s.len() > 0 && (s.last().kind == TokenKind::Whitespace || s.last().kind
        == TokenKind::Comment) {
        trim_trailing(s.drop_last())
    } else {
        s
    }
}

/// The replacement list that starts at `from`: the tokens up to the
/// trailing line feed, with leading and trailing blanks dropped.
pub open spec fn body_of(tv: Seq<TokM>, from: int) -> Seq<TokM> {
    let start = sig_at(tv, from);
    trim_trailing(tv.subrange(start, line_end_at(tv, start)))
}

/// One step per token through a function-like parameter list: identifiers
/// separated by commas, closed by `)`. Yields the parameters and the index
/// just past the `)`.
pub open spec fn params_scan(
    tv: Seq<TokM>,
    i: int,
    acc: Seq<Seq<char>>,
    expecting_name: bool,
    first: bool,
) -> Result<(Seq<Seq<char>>, int), crate::events::ProcessingErrorKindM>
    decreases tv.len() - i,
{
    if i < 0 || i >= tv.len() || tv[i].kind == TokenKind::Newline {
        Result::Err(crate::events::ProcessingErrorKindM::MalformedDefine)
    } else if tv[i].kind == TokenKind::Whitespace || tv[i].kind == TokenKind::Comment {
        params_scan(tv, i + 1, acc, expecting_name, first)
    } else if tv[i].kind == TokenKind::Symbol && tv[i].text == ")"@ {
        if expecting_name && !first {
            Result::Err(crate::events::ProcessingErrorKindM::MalformedDefine)
        } else {
            Result::Ok((acc, i + 1))
        }
    } else if expecting_name {
        if tv[i].kind != TokenKind::Ident {
            Result::Err(crate::events::ProcessingErrorKindM::MalformedDefine)
        } else if acc.contains(tv[i].text) {
            Result::Err(
                crate::events::ProcessingErrorKindM::DuplicateParameter { ident: tv[i].text },
            )
        } else {
            params_scan(tv, i + 1, acc.push(tv[i].text), false, false)
        }
    } else {
        if tv[i].kind == TokenKind::Symbol && tv[i].text == ","@ {
            params_scan(tv, i + 1, acc, true, false)
        } else {
            Result::Err(crate::events::ProcessingErrorKindM::MalformedDefine)
        }
    }
}

/// What define decoding yields: the name, the parenthesized parameters of
/// a function-like form, and the trimmed replacement list.
#[verifier::opaque]
pub open spec fn define_result(tv: Seq<TokM>) -> Result<
    crate::events::DefineM,
    crate::events::ProcessingErrorKindM,
> {
    let nm = spec_args_start(tv);
    if spec_at_line_end(tv, nm) || tv[nm].kind != TokenKind::Ident {
        Result::Err(crate::events::ProcessingErrorKindM::MalformedDefine)
    } else if nm + 1 < tv.len() && tv[nm + 1].kind == TokenKind::Symbol && tv[nm + 1].text
        == "("@ {
        match params_scan(tv, nm + 2, Seq::empty(), true, true) {
            Result::Err(e) => Result::Err(e),
            Result::Ok(pair) => Result::Ok(
                crate::events::DefineM {
                    name: tv[nm].text,
                    params: Option::Some(pair.0),
                    body: body_of(tv, pair.1),
                    protected: false,
                },
            ),
        }
    } else {
        Result::Ok(
            crate::events::DefineM {
                name: tv[nm].text,
                params: Option::None,
                body: body_of(tv, nm + 1),
                protected: false,
            },
        )
    }
}

/// Collect the replacement list from `from`: the tokens up to the line
/// feed, trailing blanks dropped.
fn collect_body(toks: &Vec<Token>, from: usize) -> (r: Vec<Token>)
    requires
        from <= toks@.len(),
    ensures
        r.deep_view() == body_of(toks.deep_view(), from as int),
{
    let n = toks.len();
    let start = skip_blanks(toks, from);
    proof {
        lemma_sig_at_unique(toks.deep_view(), from as int, start as int);
    }
    let mut body: Vec<Token> = Vec::new();
    let mut j: usize = start;
    while j < n && !matches!(toks[j].kind, TokenKind::Newline)
        invariant
            start <= j <= n,
            n == toks@.len(),
            body.deep_view() == toks.deep_view().subrange(start as int, j as int),
            forall|k: int|
                start <= k < j ==> (#[trigger] toks.deep_view()[k]).kind != TokenKind::Newline,
        decreases n - j,
    {
        let ghost prev = body.deep_view();
        let t = toks[j].dup();
        let ghost tm = t@;
        body.push(t);
        j += 1;
        proof {
            assert(body.deep_view() =~= prev.push(tm));
            assert(body.deep_view() =~= toks.deep_view().subrange(start as int, j as int));
        }
    }
    proof {
        lemma_line_end_unique(toks.deep_view(), start as int, j as int);
    }
    let ghost collected = body.deep_view();
    // Drop trailing blanks and comments.
    let mut done = false;
    while !done
        invariant
            trim_trailing(body.deep_view()) == trim_trailing(collected),
            done ==> (body.deep_view().len() == 0 || !(body.deep_view().last().kind
                == TokenKind::Whitespace || body.deep_view().last().kind == TokenKind::Comment)),
        decreases body@.len() + (if done {
            0int
        } else {
            1int
        }),
    {
        let m = body.len();
        if m == 0 {
            done = true;
        } else if matches!(body[m - 1].kind, TokenKind::Whitespace) || matches!(
            body[m - 1].kind,
            TokenKind::Comment,
        ) {
            let ghost pre = body.deep_view();
            body.pop();
            proof {
                assert(body.deep_view() =~= pre.drop_last());
            }
        } else {
            done = true;
        }
    }
    proof {
        assert(trim_trailing(body.deep_view()) == body.deep_view());
    }
    body
}

/// Decode `#define`, object-like or function-like. Parameter names must
/// not repeat; an empty replacement is legal.
pub fn decode_define(toks: &Vec<Token>) -> (r: Result<Define, ProcessingErrorKind>)
    requires
        crate::lex::toks_shaped(toks.deep_view()),
    ensures
        match r {
            Result::Ok(d) => define_result(toks.deep_view()) == Result::<
                crate::events::DefineM,
                crate::events::ProcessingErrorKindM,
            >::Ok(d@) && crate::lex::kind_matches(d.name@, TokenKind::Ident) && match d@.params {
                Option::Some(ps) => params_unique(ps),
                Option::None => true,
            } && !d.protected,
            Result::Err(e) => define_result(toks.deep_view()) == Result::<
                crate::events::DefineM,
                crate::events::ProcessingErrorKindM,
            >::Err(e@) && ((e@ matches crate::events::ProcessingErrorKindM::MalformedDefine) || (
            e@ matches crate::events::ProcessingErrorKindM::DuplicateParameter { .. })),
        },
{
    proof {
        reveal(define_result);
    }
    let ghost tv = toks.deep_view();
    let nm = args_start(toks);
    if at_line_end(toks, nm) || !matches!(toks[nm].kind, TokenKind::Ident) {
        return Result::Err(ProcessingErrorKind::MalformedDefine);
    }
    let name = copy_range(&toks[nm].text, 0, toks[nm].text.len());
    proof {
        assert(name@ =~= toks@[nm as int].text@);
    }
    let n = toks.len();
    let mut body_from: usize = nm + 1;
    let mut params: Option<Vec<Vec<char>>> = Option::None;
    // Function-like only when the `(` comes with no blank between.
    if nm + 1 < n && matches!(toks[nm + 1].kind, TokenKind::Symbol) && text_eq_str(
        &toks[nm + 1].text,
        "(",
    ) {
        let mut ps: Vec<Vec<char>> = Vec::new();
        let mut i: usize = nm + 2;
        let mut expecting_name = true;
        let mut first = true;
        let mut finished = false;
        proof {
            assert(ps.deep_view() =~= Seq::<Seq<char>>::empty());
        }
        while !finished
            invariant
                i <= n,
                n == toks@.len(),
                tv == toks.deep_view(),
                crate::lex::toks_shaped(tv),
                params_unique(ps.deep_view()),
                !finished ==> params_scan(tv, nm + 2, Seq::empty(), true, true) == params_scan(
                    tv,
                    i as int,
                    ps.deep_view(),
                    expecting_name,
                    first,
                ),
                finished ==> body_from <= n && params_scan(tv, nm + 2, Seq::empty(), true, true)
                    == Result::<
                    (Seq<Seq<char>>, int),
                    crate::events::ProcessingErrorKindM,
                >::Ok((ps.deep_view(), body_from as int)),
                !spec_at_line_end(tv, nm as int) && tv[nm as int].kind == TokenKind::Ident,
                nm as int == spec_args_start(tv),
                nm + 1 < n && tv[nm + 1].kind == TokenKind::Symbol && tv[nm + 1].text == "("@,
            decreases (n - i) + (if finished {
                0int
            } else {
                1int
            }),
        {
            proof {
                reveal(define_result);
            }
            let s = skip_blanks(toks, i);
            proof {
                lemma_sig_at_unique(tv, i as int, s as int);
                lemma_params_scan_skip(tv, i as int, ps.deep_view(), expecting_name, first);
            }
            if at_line_end(toks, s) {
                proof {
                    assert(params_scan(tv, s as int, ps.deep_view(), expecting_name, first)
                        == Result::<
                        (Seq<Seq<char>>, int),
                        crate::events::ProcessingErrorKindM,
                    >::Err(crate::events::ProcessingErrorKindM::MalformedDefine));
                }
                return Result::Err(ProcessingErrorKind::MalformedDefine);
            }
            if matches!(toks[s].kind, TokenKind::Symbol) && text_eq_str(&toks[s].text, ")") {
                if expecting_name && !first {
                    return Result::Err(ProcessingErrorKind::MalformedDefine);
                }
                body_from = s + 1;
                finished = true;
            } else if expecting_name {
                if !matches!(toks[s].kind, TokenKind::Ident) {
                    return Result::Err(ProcessingErrorKind::MalformedDefine);
                }
                let p = copy_range(&toks[s].text, 0, toks[s].text.len());
                proof {
                    assert(p@ =~= toks@[s as int].text@);
                }
                if params_contain(&ps, &p) {
                    proof {
                        assert(ps.deep_view().contains(tv[s as int].text));
                    }
                    return Result::Err(ProcessingErrorKind::DuplicateParameter { ident: p });
                }
                proof {
                    assert(!ps.deep_view().contains(tv[s as int].text)) by {
                        if ps.deep_view().contains(tv[s as int].text) {
                            let w = choose|w: int|
                                0 <= w < ps.deep_view().len() && ps.deep_view()[w] == tv[
                                s as int].text;
                            assert(ps.deep_view()[w] == p@);
                        }
                    }
                }
                let ghost prev = ps.deep_view();
                let ghost pm = p@;
                proof {
                    assert(pm == p.deep_view());
                }
                ps.push(p);
                proof {
                    assert(ps.deep_view() =~= prev.push(pm));
                    assert forall|x: int, y: int|
                        0 <= x < y < ps.deep_view().len() implies #[trigger] ps.deep_view()[x]
                        != #[trigger] ps.deep_view()[y] by {
                        if y == ps.deep_view().len() - 1 {
                            assert(ps.deep_view()[y] == pm);
                            assert(ps.deep_view()[x] == prev[x]);
                        }
                    }
                }
                expecting_name = false;
                first = false;
                i = s + 1;
            } else {
                if !(matches!(toks[s].kind, TokenKind::Symbol) && text_eq_str(&toks[s].text, ","))
                {
                    return Result::Err(ProcessingErrorKind::MalformedDefine);
                }
                expecting_name = true;
                first = false;
                i = s + 1;
            }
        }
        params = Option::Some(ps);
    }
    // The replacement list: everything up to the trailing line feed, with
    // leading and trailing blanks dropped.
    let body = collect_body(toks, if body_from <= n {
        body_from
    } else {
        n
    });
    proof {
        assert(name@ =~= toks@[nm as int].text@);
        assert(crate::lex::kind_matches(
            toks.deep_view()[nm as int].text,
            toks.deep_view()[nm as int].kind,
        ));
    }
    let r = Define { name, params, body, protected: false };
    proof {
        match define_result(tv) {
            Result::Ok(dm) => {
                assert(r@ =~~= dm);
            },
            Result::Err(_) => {},
        }
    }
    Result::Ok(r)
}

/// Skipping blanks and comments does not change what the parameter scan
/// yields.
proof fn lemma_params_scan_skip(
    tv: Seq<TokM>,
    i: int,
    acc: Seq<Seq<char>>,
    expecting_name: bool,
    first: bool,
)
    requires
        0 <= i <= tv.len(),
    ensures
        params_scan(tv, i, acc, expecting_name, first) == params_scan(
            tv,
            sig_at(tv, i),
            acc,
            expecting_name,
            first,
        ),
    decreases tv.len() - i,
{
    if i < tv.len() && (tv[i].kind == TokenKind::Whitespace || tv[i].kind == TokenKind::Comment) {
        lemma_params_scan_skip(tv, i + 1, acc, expecting_name, first);
    }
}

/// The diagnostic message of an `#error` line: the concatenated texts of
/// everything after the keyword, up to the trailing line feed.
#[verifier::opaque]
pub open spec fn error_message(tv: Seq<TokM>) -> Seq<char> {
    let a = spec_args_start(tv);
    crate::lex::texts_concat(tv.subrange(a, line_end_at(tv, a)))
}

/// Decode `#error`: the rest of the line is the diagnostic message.
pub fn decode_error_directive(toks: &Vec<Token>) -> (r: Vec<char>)
    ensures
        r@ == error_message(toks.deep_view()),
{
    proof {
        reveal(error_message);
    }
    let ghost tv = toks.deep_view();
    let a = args_start(toks);
    let n = toks.len();
    let mut msg: Vec<char> = Vec::new();
    let mut j: usize = a;
    while j < n && !matches!(toks[j].kind, TokenKind::Newline)
        invariant
            a <= j <= n,
            n == toks@.len(),
            tv == toks.deep_view(),
            msg@ == crate::lex::texts_concat(tv.subrange(a as int, j as int)),
            forall|k: int| a <= k < j ==> (#[trigger] tv[k]).kind != TokenKind::Newline,
        decreases n - j,
    {
        append_text(&mut msg, &toks[j]);
        j += 1;
        proof {
            let sub = tv.subrange(a as int, j as int);
            assert(sub.drop_last() =~= tv.subrange(a as int, j as int - 1));
            assert(sub.last() == tv[j - 1]);
        }
    }
    proof {
        lemma_line_end_unique(tv, a as int, j as int);
        assert(tv.subrange(a as int, a as int) =~= Seq::<TokM>::empty());
    }
    msg
}

/// The first closing delimiter at or after `j`, or the end of the
/// sequence when none comes before the line feed.
pub open spec fn close_at(tv: Seq<TokM>, j: int, close: Seq<char>) -> int
    decreases tv.len() - j,
{
    if j < 0 || j >= tv.len() || tv[j].kind == TokenKind::Newline {
        tv.len() as int
    } else if tv[j].kind == TokenKind::Symbol && tv[j].text == close {
        j
    } else {
        close_at(tv, j + 1, close)
    }
}

/// A scan that runs into the line feed, or off the end, finds no closing
/// delimiter.
proof fn lemma_close_at_sentinel(tv: Seq<TokM>, j0: int, j: int, close: Seq<char>)
    requires
        0 <= j0 <= j <= tv.len(),
        j >= tv.len() || tv[j].kind == TokenKind::Newline,
        forall|k: int|
            j0 <= k < j ==> (#[trigger] tv[k]).kind != TokenKind::Newline && !(tv[k].kind
                == TokenKind::Symbol && tv[k].text == close),
    ensures
        close_at(tv, j0, close) == tv.len(),
    decreases j - j0,
{
    if j0 < j {
        lemma_close_at_sentinel(tv, j0 + 1, j, close);
    }
}

/// Any index with the scan-to-close properties is that index.
proof fn lemma_close_at_unique(tv: Seq<TokM>, j: int, r: int, close: Seq<char>)
    requires
        0 <= j <= tv.len(),
        j <= r <= tv.len(),
        r < tv.len() ==> tv[r].kind == TokenKind::Symbol && tv[r].text == close && tv[r].kind
            != TokenKind::Newline,
        forall|k: int|
            j <= k < r ==> (#[trigger] tv[k]).kind != TokenKind::Newline && !(tv[k].kind
                == TokenKind::Symbol && tv[k].text == close),
    ensures
        r == close_at(tv, j, close),
    decreases r - j,
{
    if j < r {
        lemma_close_at_unique(tv, j + 1, r, close);
    }
}

/// What inclusion decoding yields: the path between `"..."` or `<...>`
/// delimiters, with nothing after the closing one, and whether the quoted
/// form was used.
#[verifier::opaque]
pub open spec fn inclusion_result(tv: Seq<TokM>) -> Result<
    (Seq<char>, bool),
    crate::events::ProcessingErrorKindM,
> {
    let a = spec_args_start(tv);
    if spec_at_line_end(tv, a) || tv[a].kind != TokenKind::Symbol || (tv[a].text != "\""@
        && tv[a].text != "<"@) {
        Result::Err(
            crate::events::ProcessingErrorKindM::Unhandled { node_kind: NodeKind::Include },
        )
    } else {
        let quoted = tv[a].text == "\""@;
        let close = if quoted {
            "\""@
        } else {
            ">"@
        };
        let e = close_at(tv, a + 1, close);
        if e >= tv.len() || !spec_at_line_end(tv, sig_at(tv, e + 1)) {
            Result::Err(
                crate::events::ProcessingErrorKindM::Unhandled { node_kind: NodeKind::Include },
            )
        } else {
            Result::Ok((crate::lex::texts_concat(tv.subrange(a + 1, e)), quoted))
        }
    }
}

/// Decode `#include`: a `"..."` or `<...>` path literal.
pub fn decode_inclusion(toks: &Vec<Token>) -> (r: Result<DirectiveKind, ProcessingErrorKind>)
    ensures
        match r {
            Result::Ok(k) => (k@ matches crate::events::DirectiveKindM::Include {
                path,
                quoted,
            } && inclusion_result(toks.deep_view()) == Result::<
                (Seq<char>, bool),
                crate::events::ProcessingErrorKindM,
            >::Ok((path, quoted))),
            Result::Err(e) => inclusion_result(toks.deep_view()) == Result::<
                (Seq<char>, bool),
                crate::events::ProcessingErrorKindM,
            >::Err(e@) && (e@ matches crate::events::ProcessingErrorKindM::Unhandled { .. }),
        },
{
    proof {
        reveal(inclusion_result);
    }
    let ghost tv = toks.deep_view();
    let a = args_start(toks);
    let n = toks.len();
    if at_line_end(toks, a) || !matches!(toks[a].kind, TokenKind::Symbol) {
        return Result::Err(ProcessingErrorKind::Unhandled { node_kind: NodeKind::Include });
    }
    let quoted = if text_eq_str(&toks[a].text, "\"") {
        true
    } else if text_eq_str(&toks[a].text, "<") {
        false
    } else {
        return Result::Err(ProcessingErrorKind::Unhandled { node_kind: NodeKind::Include });
    };
    let ghost close: Seq<char> = if quoted {
        "\""@
    } else {
        ">"@
    };
    let mut path: Vec<char> = Vec::new();
    let mut j: usize = a + 1;
    let mut found = false;
    while !found
        invariant
            a < j <= n,
            n == toks@.len(),
            tv == toks.deep_view(),
            a as int == spec_args_start(tv),
            !spec_at_line_end(tv, a as int) && tv[a as int].kind == TokenKind::Symbol,
            quoted == (tv[a as int].text == "\""@),
            tv[a as int].text == "\""@ || tv[a as int].text == "<"@,
            close == (if quoted {
                "\""@
            } else {
                ">"@
            }),
            path@ == crate::lex::texts_concat(tv.subrange(a as int + 1, j as int)),
            forall|k: int|
                a + 1 <= k < j ==> (#[trigger] tv[k]).kind != TokenKind::Newline && !(tv[k].kind
                    == TokenKind::Symbol && tv[k].text == close),
            found ==> j < n && tv[j as int].kind == TokenKind::Symbol && tv[j as int].text
                == close,
        decreases (n - j) + (if found {
            0int
        } else {
            1int
        }),
    {
        proof {
            reveal(inclusion_result);
        }
        if j >= n || matches!(toks[j].kind, TokenKind::Newline) {
            // The closing delimiter never came.
            proof {
                lemma_close_at_sentinel(tv, a as int + 1, j as int, close);
            }
            return Result::Err(ProcessingErrorKind::Unhandled { node_kind: NodeKind::Include });
        }
        if matches!(toks[j].kind, TokenKind::Symbol) && ((quoted && text_eq_str(
            &toks[j].text,
            "\"",
        )) || (!quoted && text_eq_str(&toks[j].text, ">"))) {
            found = true;
        } else {
            append_text(&mut path, &toks[j]);
            j += 1;
            proof {
                let sub = tv.subrange(a as int + 1, j as int);
                assert(sub.drop_last() =~= tv.subrange(a as int + 1, j as int - 1));
                assert(sub.last() == tv[j - 1]);
            }
        }
    }
    proof {
        lemma_close_at_unique(tv, a as int + 1, j as int, close);
    }
    let t = if j < n {
        skip_blanks(toks, j + 1)
    } else {
        n
    };
    proof {
        lemma_sig_at_unique(tv, j as int + 1, t as int);
    }
    if !at_line_end(toks, t) {
        return Result::Err(ProcessingErrorKind::Unhandled { node_kind: NodeKind::Include });
    }
    Result::Ok(DirectiveKind::Include { path, quoted })
}

/// What line decoding yields: a line number that fits, then an optional
/// source string number, nothing else.
#[verifier::opaque]
pub open spec fn line_result(tv: Seq<TokM>) -> Result<
    (u32, Option<u32>),
    crate::events::ProcessingErrorKindM,
> {
    let a = spec_args_start(tv);
    if spec_at_line_end(tv, a) || tv[a].kind != TokenKind::Number || dec_val(tv[a].text)
        > u32::MAX {
        Result::Err(crate::events::ProcessingErrorKindM::Unhandled { node_kind: NodeKind::Line })
    } else {
        let line = dec_val(tv[a].text) as u32;
        let b = sig_at(tv, a + 1);
        if spec_at_line_end(tv, b) {
            Result::Ok((line, Option::None))
        } else if tv[b].kind != TokenKind::Number || dec_val(tv[b].text) > u32::MAX
            || !spec_at_line_end(tv, sig_at(tv, b + 1)) {
            Result::Err(
                crate::events::ProcessingErrorKindM::Unhandled { node_kind: NodeKind::Line },
            )
        } else {
            Result::Ok((line, Option::Some(dec_val(tv[b].text) as u32)))
        }
    }
}

/// Decode `#line`: a line number and an optional source string number.
pub fn decode_line(toks: &Vec<Token>) -> (r: Result<DirectiveKind, ProcessingErrorKind>)
    requires
        crate::lex::toks_shaped(toks.deep_view()),
    ensures
        match r {
            Result::Ok(k) => (k@ matches crate::events::DirectiveKindM::Line {
                line,
                source_number,
            } && line_result(toks.deep_view()) == Result::<
                (u32, Option<u32>),
                crate::events::ProcessingErrorKindM,
            >::Ok((line, source_number))),
            Result::Err(e) => line_result(toks.deep_view()) == Result::<
                (u32, Option<u32>),
                crate::events::ProcessingErrorKindM,
            >::Err(e@) && (e@ matches crate::events::ProcessingErrorKindM::Unhandled { .. }),
        },
{
    proof {
        reveal(line_result);
    }
    let nn: usize = toks.len();
    let a = args_start(toks);
    if at_line_end(toks, a) || !matches!(toks[a].kind, TokenKind::Number) {
        return Result::Err(ProcessingErrorKind::Unhandled { node_kind: NodeKind::Line });
    }
    assert(a < nn);
    proof {
        assert(crate::lex::kind_matches(
            toks.deep_view()[a as int].text,
            toks.deep_view()[a as int].kind,
        ));
    }
    let line = match parse_number(&toks[a].text) {
        Option::Some(v) => v,
        Option::None => {
            proof {
                assert(forall|i: int|
                    0 <= i < toks@[a as int].text@.len() ==> crate::lex::is_digit_char(
                        #[trigger] toks@[a as int].text@[i],
                    ));
            }
            return Result::Err(ProcessingErrorKind::Unhandled { node_kind: NodeKind::Line });
        },
    };
    let b = skip_blanks(toks, a + 1);
    proof {
        lemma_sig_at_unique(toks.deep_view(), a as int + 1, b as int);
    }
    if at_line_end(toks, b) {
        return Result::Ok(DirectiveKind::Line { line, source_number: Option::None });
    }
    assert(b < nn);
    if !matches!(toks[b].kind, TokenKind::Number) {
        return Result::Err(ProcessingErrorKind::Unhandled { node_kind: NodeKind::Line });
    }
    proof {
        assert(crate::lex::kind_matches(
            toks.deep_view()[b as int].text,
            toks.deep_view()[b as int].kind,
        ));
    }
    let sn = match parse_number(&toks[b].text) {
        Option::Some(v) => v,
        Option::None => {
            proof {
                assert(forall|i: int|
                    0 <= i < toks@[b as int].text@.len() ==> crate::lex::is_digit_char(
                        #[trigger] toks@[b as int].text@[i],
                    ));
            }
            return Result::Err(ProcessingErrorKind::Unhandled { node_kind: NodeKind::Line });
        },
    };
    let t = skip_blanks(toks, b + 1);
    proof {
        lemma_sig_at_unique(toks.deep_view(), b as int + 1, t as int);
    }
    if !at_line_end(toks, t) {
        return Result::Err(ProcessingErrorKind::Unhandled { node_kind: NodeKind::Line });
    }
    Result::Ok(DirectiveKind::Line { line, source_number: Option::Some(sn) })
}

} // verus!
