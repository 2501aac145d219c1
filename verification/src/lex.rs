//! Lossless tokenization of preprocessor source text.
//!
//! The tokenizer cuts a decoded source text into terminal tokens that tile
//! the input exactly: every character of the input belongs to exactly one
//! token, and each token records its character-offset range together with a
//! copy of its text. Concatenating the token texts therefore reconstructs
//! the input character for character.

use vstd::prelude::*;

verus! {

/// Kind of a terminal token.
#[derive(Clone, Copy, Debug, PartialEq, Eq, Structural)]
pub enum TokenKind {
    /// An identifier or keyword: `[A-Za-z_][A-Za-z0-9_]*`.
    Ident,
    /// A run of decimal digits.
    Number,
    /// A run of blanks (space, tab, carriage return).
    Whitespace,
    /// A single line feed.
    Newline,
    /// A `//` line comment or a `/*` block comment.
    Comment,
    /// Any other single character.
    Symbol,
}

/// A terminal token: a kind, the half-open character range it covers in its
/// source, and a copy of the covered text.
#[derive(Debug)]
pub struct Token {
    pub kind: TokenKind,
    pub start: usize,
    pub end: usize,
    pub text: Vec<char>,
}

/// The mathematical model of a token.
#[verifier::ext_equal]
pub ghost struct TokM {
    pub kind: TokenKind,
    pub start: int,
    pub end: int,
    pub text: Seq<char>,
}

impl View for Token {
    type V = TokM;

    open spec fn view(&self) -> TokM {
        TokM {
            kind: self.kind,
            start: self.start as int,
            end: self.end as int,
            text: self.text@,
        }
    }
}

impl DeepView for Token {
    type V = TokM;

    open spec fn deep_view(&self) -> TokM {
        self.view()
    }
}

impl Token {
    /// Copy a token; the copy has the same model.
    pub fn dup(&self) -> (r: Token)
        ensures
            r@ == self@,
    {
        let r = Token {
            kind: self.kind,
            start: self.start,
            end: self.end,
            text: copy_range(&self.text, 0, self.text.len()),
        };
        assert(r.text@ =~= self.text@);
        assert(r@ =~= self@);
        r
    }
}

pub open spec fn is_ident_start_char(c: char) -> bool {
    (97 <= c as u32 && c as u32 <= 122) || (65 <= c as u32 && c as u32 <= 90) || c == '_'
}

pub open spec fn is_digit_char(c: char) -> bool {
    48 <= c as u32 && c as u32 <= 57
}

pub open spec fn is_ident_char(c: char) -> bool {
    is_ident_start_char(c) || is_digit_char(c)
}

pub open spec fn is_blank_char(c: char) -> bool {
    c == ' ' || c == '\t' || c == '\r'
}

pub fn ident_start_char(c: char) -> (r: bool)
    ensures
        r == is_ident_start_char(c),
{
    let u = c as u32;
    (97 <= u && u <= 122) || (65 <= u && u <= 90) || c == '_'
}

pub fn digit_char(c: char) -> (r: bool)
    ensures
        r == is_digit_char(c),
{
    let u = c as u32;
    48 <= u && u <= 57
}

pub fn ident_char(c: char) -> (r: bool)
    ensures
        r == is_ident_char(c),
{
    ident_start_char(c) || digit_char(c)
}

pub fn blank_char(c: char) -> (r: bool)
    ensures
        r == is_blank_char(c),
{
    c == ' ' || c == '\t' || c == '\r'
}

/// What the text of a token of each kind looks like.
pub open spec fn kind_matches(text: Seq<char>, kind: TokenKind) -> bool {
    match kind {
        TokenKind::Ident => text.len() > 0 && is_ident_start_char(text[0]) && forall|i: int|
            0 <= i < text.len() ==> is_ident_char(#[trigger] text[i]),
        TokenKind::Number => text.len() > 0 && forall|i: int|
            0 <= i < text.len() ==> is_digit_char(#[trigger] text[i]),
        TokenKind::Whitespace => text.len() > 0 && forall|i: int|
            0 <= i < text.len() ==> is_blank_char(#[trigger] text[i]),
        TokenKind::Newline => text.len() == 1 && text[0] == '\n',
        TokenKind::Comment => text.len() >= 2 && text[0] == '/' && (text[1] == '/' || text[1]
            == '*'),
        TokenKind::Symbol => text.len() == 1 && !is_blank_char(text[0]) && text[0] != '\n'
            && !is_ident_start_char(text[0]) && !is_digit_char(text[0]),
    }
}

/// Every token's text has the shape of its kind.
pub open spec fn toks_shaped(toks: Seq<TokM>) -> bool {
    forall|i: int|
        0 <= i < toks.len() ==> kind_matches((#[trigger] toks[i]).text, toks[i].kind)
}

/// A token is well formed for a source when its range lies inside the source,
/// its text is the covered slice of the source, and the text has the shape of
/// its kind.
pub open spec fn token_wf(src: Seq<char>, t: TokM) -> bool {
    &&& 0 <= t.start < t.end <= src.len()
    &&& t.text == src.subrange(t.start, t.end)
    &&& kind_matches(t.text, t.kind)
}

/// The tokens tile the source: they are well formed, contiguous, and cover
/// the whole input from the first character to the last.
pub open spec fn tokens_tile(src: Seq<char>, toks: Seq<TokM>) -> bool {
    &&& forall|i: int| 0 <= i < toks.len() ==> token_wf(src, #[trigger] toks[i])
    &&& (toks.len() == 0 ==> src.len() == 0)
    &&& (toks.len() > 0 ==> toks[0].start == 0 && toks[toks.len() - 1].end == src.len())
    &&& forall|i: int| 0 <= i < toks.len() - 1 ==> (#[trigger] toks[i].end) == toks[i + 1].start
}

/// The end of the run of blanks that starts at `p`.
pub open spec fn run_end_blank(src: Seq<char>, p: int) -> int
    decreases src.len() - p,
{
    if p < 0 || p >= src.len() || !is_blank_char(src[p]) {
        p
    } else {
        run_end_blank(src, p + 1)
    }
}

/// The end of the run of identifier characters that starts at `p`.
pub open spec fn run_end_ident(src: Seq<char>, p: int) -> int
    decreases src.len() - p,
{
    if p < 0 || p >= src.len() || !is_ident_char(src[p]) {
        p
    } else {
        run_end_ident(src, p + 1)
    }
}

/// The end of the run of digits that starts at `p`.
pub open spec fn run_end_digit(src: Seq<char>, p: int) -> int
    decreases src.len() - p,
{
    if p < 0 || p >= src.len() || !is_digit_char(src[p]) {
        p
    } else {
        run_end_digit(src, p + 1)
    }
}

/// The end of a line comment whose text starts at `p`: the next line feed,
/// or the end of the source.
pub open spec fn line_comment_end(src: Seq<char>, p: int) -> int
    decreases src.len() - p,
{
    if p < 0 || p >= src.len() || src[p] == '\n' {
        p
    } else {
        line_comment_end(src, p + 1)
    }
}

/// The end of a block comment whose interior starts at `p`: just past the
/// closing `*/`, or the end of the source when it never closes.
pub open spec fn block_comment_end(src: Seq<char>, p: int) -> int
    decreases src.len() - p,
{
    if p < 0 || p >= src.len() {
        src.len() as int
    } else if p + 1 < src.len() && src[p] == '*' && src[p + 1] == '/' {
        p + 2
    } else {
        block_comment_end(src, p + 1)
    }
}

/// Where the token that starts at `p` must end: the longest munch the
/// grammar allows from that character.
pub open spec fn token_end_at(src: Seq<char>, p: int) -> int {
    let c = src[p];
    if is_blank_char(c) {
        run_end_blank(src, p)
    } else if c == '\n' {
        p + 1
    } else if is_ident_start_char(c) {
        run_end_ident(src, p + 1)
    } else if is_digit_char(c) {
        run_end_digit(src, p)
    } else if c == '/' && p + 1 < src.len() && src[p + 1] == '/' {
        line_comment_end(src, p + 2)
    } else if c == '/' && p + 1 < src.len() && src[p + 1] == '*' {
        block_comment_end(src, p + 2)
    } else {
        p + 1
    }
}

/// The kind of the token that starts at `p`.
pub open spec fn token_kind_at(src: Seq<char>, p: int) -> TokenKind {
    let c = src[p];
    if is_blank_char(c) {
        TokenKind::Whitespace
    } else if c == '\n' {
        TokenKind::Newline
    } else if is_ident_start_char(c) {
        TokenKind::Ident
    } else if is_digit_char(c) {
        TokenKind::Number
    } else if c == '/' && p + 1 < src.len() && (src[p + 1] == '/' || src[p + 1] == '*') {
        TokenKind::Comment
    } else {
        TokenKind::Symbol
    }
}

/// The tokens are canonical: each one's end and kind are the ones the
/// longest-munch grammar assigns to its start, so a source has exactly one
/// canonical tiling.
pub open spec fn toks_canonical(src: Seq<char>, toks: Seq<TokM>) -> bool {
    forall|i: int|
        0 <= i < toks.len() ==> (#[trigger] toks[i]).end == token_end_at(src, toks[i].start)
            && toks[i].kind == token_kind_at(src, toks[i].start)
}

/// Any end with the blank-run properties is the blank-run end.
proof fn lemma_run_blank(src: Seq<char>, p: int, e: int)
    requires
        0 <= p <= e <= src.len(),
        forall|k: int| p <= k < e ==> is_blank_char(#[trigger] src[k]),
        e < src.len() ==> !is_blank_char(src[e]),
    ensures
        e == run_end_blank(src, p),
    decreases e - p,
{
    if p < e {
        lemma_run_blank(src, p + 1, e);
    }
}

/// Any end with the identifier-run properties is the identifier-run end.
proof fn lemma_run_ident(src: Seq<char>, p: int, e: int)
    requires
        0 <= p <= e <= src.len(),
        forall|k: int| p <= k < e ==> is_ident_char(#[trigger] src[k]),
        e < src.len() ==> !is_ident_char(src[e]),
    ensures
        e == run_end_ident(src, p),
    decreases e - p,
{
    if p < e {
        lemma_run_ident(src, p + 1, e);
    }
}

/// Any end with the digit-run properties is the digit-run end.
proof fn lemma_run_digit(src: Seq<char>, p: int, e: int)
    requires
        0 <= p <= e <= src.len(),
        forall|k: int| p <= k < e ==> is_digit_char(#[trigger] src[k]),
        e < src.len() ==> !is_digit_char(src[e]),
    ensures
        e == run_end_digit(src, p),
    decreases e - p,
{
    if p < e {
        lemma_run_digit(src, p + 1, e);
    }
}

/// Any end with the scan-to-line-feed properties is the line comment end.
proof fn lemma_line_comment(src: Seq<char>, p: int, e: int)
    requires
        0 <= p <= e <= src.len(),
        forall|k: int| p <= k < e ==> #[trigger] src[k] != '\n',
        e < src.len() ==> src[e] == '\n',
    ensures
        e == line_comment_end(src, p),
    decreases e - p,
{
    if p < e {
        lemma_line_comment(src, p + 1, e);
    }
}

/// A closing `*/` with nothing closing earlier pins the block comment end.
proof fn lemma_block_closed(src: Seq<char>, p: int, k: int)
    requires
        0 <= p <= k,
        k + 1 < src.len(),
        src[k] == '*' && src[k + 1] == '/',
        forall|j: int|
            p <= j < k ==> !(j + 1 < src.len() && #[trigger] src[j] == '*' && src[j + 1] == '/'),
    ensures
        block_comment_end(src, p) == k + 2,
    decreases k - p,
{
    if p < k {
        lemma_block_closed(src, p + 1, k);
    }
}

/// With no closing `*/` anywhere ahead, the block comment runs to the end.
proof fn lemma_block_open(src: Seq<char>, p: int)
    requires
        0 <= p <= src.len(),
        forall|j: int|
            p <= j < src.len() ==> !(j + 1 < src.len() && #[trigger] src[j] == '*' && src[j + 1]
                == '/'),
    ensures
        block_comment_end(src, p) == src.len(),
    decreases src.len() - p,
{
    if p < src.len() {
        lemma_block_open(src, p + 1);
    }
}

/// The first index at or after `j` whose token is neither whitespace nor
/// a comment, or the end of the sequence.
pub open spec fn sig_at(toks: Seq<TokM>, j: int) -> int
    decreases toks.len() - j,
{
    if j < 0 || j >= toks.len() {
        toks.len() as int
    } else if toks[j].kind == TokenKind::Whitespace || toks[j].kind == TokenKind::Comment {
        sig_at(toks, j + 1)
    } else {
        j
    }
}

/// Any index with the skip-blanks properties is the significant index.
pub proof fn lemma_sig_at_unique(toks: Seq<TokM>, j: int, r: int)
    requires
        0 <= j <= toks.len(),
        j <= r <= toks.len(),
        r < toks.len() ==> toks[r].kind != TokenKind::Whitespace && toks[r].kind
            != TokenKind::Comment,
        forall|k: int|
            j <= k < r ==> (#[trigger] toks[k].kind == TokenKind::Whitespace || toks[k].kind
                == TokenKind::Comment),
    ensures
        r == sig_at(toks, j),
    decreases r - j,
{
    if j == r {
    } else {
        assert(toks[j].kind == TokenKind::Whitespace || toks[j].kind == TokenKind::Comment);
        lemma_sig_at_unique(toks, j + 1, r);
    }
}

/// The index of the trailing line feed of the directive line, at or after
/// `j`, or the end of the sequence.
pub open spec fn line_end_at(tv: Seq<TokM>, j: int) -> int
    decreases tv.len() - j,
{
    if j < 0 || j >= tv.len() {
        tv.len() as int
    } else if tv[j].kind == TokenKind::Newline {
        j
    } else {
        line_end_at(tv, j + 1)
    }
}

/// Any index with the scan-to-line-feed properties is that index.
pub proof fn lemma_line_end_unique(tv: Seq<TokM>, j: int, r: int)
    requires
        0 <= j <= tv.len(),
        j <= r <= tv.len(),
        r < tv.len() ==> tv[r].kind == TokenKind::Newline,
        forall|k: int| j <= k < r ==> (#[trigger] tv[k]).kind != TokenKind::Newline,
    ensures
        r == line_end_at(tv, j),
    decreases r - j,
{
    if j < r {
        lemma_line_end_unique(tv, j + 1, r);
    }
}

/// The concatenation of the texts of a token sequence.
pub open spec fn texts_concat(toks: Seq<TokM>) -> Seq<char>
    decreases toks.len(),
{
    if toks.len() == 0 {
        Seq::empty()
    } else {
        texts_concat(toks.drop_last()) + toks.last().text
    }
}

/// For a tiling prefix, the concatenated texts rebuild the covered prefix of
/// the source.
proof fn lemma_tile_prefix_concat(src: Seq<char>, toks: Seq<TokM>, k: int)
    requires
        0 <= k <= toks.len(),
        forall|i: int| 0 <= i < toks.len() ==> token_wf(src, #[trigger] toks[i]),
        toks.len() > 0 ==> toks[0].start == 0,
        forall|i: int| 0 <= i < toks.len() - 1 ==> (#[trigger] toks[i].end) == toks[i + 1].start,
    ensures
        texts_concat(toks.subrange(0, k)) == src.subrange(
            0,
            if k == 0 {
                0
            } else {
                toks[k - 1].end
            },
        ),
    decreases k,
{
    if k == 0 {
        assert(toks.subrange(0, 0) =~= Seq::<TokM>::empty());
        assert(texts_concat(toks.subrange(0, 0)) =~= src.subrange(0, 0));
    } else {
        lemma_tile_prefix_concat(src, toks, k - 1);
        let pre = toks.subrange(0, k);
        assert(pre.drop_last() =~= toks.subrange(0, k - 1));
        assert(pre.last() == toks[k - 1]);
        let lo: int = if k == 1 {
            0
        } else {
            toks[k - 2].end
        };
        assert(toks[k - 1].start == lo);
        assert(texts_concat(pre) == src.subrange(0, lo) + src.subrange(lo, toks[k - 1].end));
        assert(src.subrange(0, lo) + src.subrange(lo, toks[k - 1].end) =~= src.subrange(
            0,
            toks[k - 1].end,
        ));
    }
}

/// In two canonical tilings, equal prefixes force the next tokens equal.
proof fn lemma_canonical_step(src: Seq<char>, t1: Seq<TokM>, t2: Seq<TokM>, k: int)
    requires
        tokens_tile(src, t1),
        toks_canonical(src, t1),
        tokens_tile(src, t2),
        toks_canonical(src, t2),
        0 <= k < t1.len(),
        k < t2.len(),
        forall|j: int| 0 <= j < k ==> t1[j] == t2[j],
    ensures
        t1[k] == t2[k],
{
    if k == 0 {
        assert(t1[0].start == 0 && t2[0].start == 0);
    } else {
        assert(t1[k - 1].end == t1[k].start);
        assert(t2[k - 1].end == t2[k].start);
        assert(t1[k - 1] == t2[k - 1]);
    }
    assert(t1[k].end == token_end_at(src, t1[k].start));
    assert(t2[k].end == token_end_at(src, t2[k].start));
    assert(t1[k].kind == token_kind_at(src, t1[k].start));
    assert(t2[k].kind == token_kind_at(src, t2[k].start));
    assert(t1[k].text == src.subrange(t1[k].start, t1[k].end));
    assert(t2[k].text == src.subrange(t2[k].start, t2[k].end));
    assert(t1[k] =~= t2[k]);
}

/// Equal prefixes of two canonical tilings, up to a length.
proof fn lemma_canonical_prefix(src: Seq<char>, t1: Seq<TokM>, t2: Seq<TokM>, k: int)
    requires
        tokens_tile(src, t1),
        toks_canonical(src, t1),
        tokens_tile(src, t2),
        toks_canonical(src, t2),
        0 <= k <= t1.len(),
        k <= t2.len(),
    ensures
        forall|j: int| 0 <= j < k ==> t1[j] == t2[j],
    decreases k,
{
    if k > 0 {
        lemma_canonical_prefix(src, t1, t2, k - 1);
        lemma_canonical_step(src, t1, t2, k - 1);
    }
}

/// A source has exactly one canonical tiling.
pub proof fn lemma_canonical_unique(src: Seq<char>, t1: Seq<TokM>, t2: Seq<TokM>)
    requires
        tokens_tile(src, t1),
        toks_canonical(src, t1),
        tokens_tile(src, t2),
        toks_canonical(src, t2),
    ensures
        t1 == t2,
{
    if t1.len() <= t2.len() {
        lemma_canonical_prefix(src, t1, t2, t1.len() as int);
        if t1.len() < t2.len() {
            if t1.len() == 0 {
                assert(src.len() == 0);
                assert(0 <= t2[0].start < t2[0].end <= src.len());
                assert(false);
            } else {
                assert(t1[t1.len() - 1].end == src.len());
                assert(t2[t1.len() - 1].end == src.len());
                assert(t2[t1.len() as int].start == src.len());
                assert(t2[t1.len() as int].start < t2[t1.len() as int].end <= src.len());
                assert(false);
            }
        }
        assert(t1 =~= t2);
    } else {
        lemma_canonical_prefix(src, t2, t1, t2.len() as int);
        if t2.len() == 0 {
            assert(src.len() == 0);
            assert(0 <= t1[0].start < t1[0].end <= src.len());
            assert(false);
        } else {
            assert(t2[t2.len() - 1].end == src.len());
            assert(t1[t2.len() - 1].end == src.len());
            assert(t1[t2.len() as int].start == src.len());
            assert(t1[t2.len() as int].start < t1[t2.len() as int].end <= src.len());
            assert(false);
        }
    }
}

/// Tiling tokens are lossless: their concatenated texts are the source.
pub proof fn lemma_tile_concat(src: Seq<char>, toks: Seq<TokM>)
    requires
        tokens_tile(src, toks),
    ensures
        texts_concat(toks) == src,
{
    lemma_tile_prefix_concat(src, toks, toks.len() as int);
    assert(toks.subrange(0, toks.len() as int) =~= toks);
    if toks.len() == 0 {
        assert(texts_concat(toks) =~= src);
    } else {
        assert(src.subrange(0, src.len() as int) =~= src);
    }
}

/// Copy the characters of a source text into a fresh vector.
pub fn chars_of(s: &str) -> (r: Vec<char>)
    ensures
        r@ == s@,
{
    let n = s.unicode_len();
    let mut r: Vec<char> = Vec::new();
    let mut i: usize = 0;
    while i < n
        invariant
            i <= n,
            n == s@.len(),
            r@ == s@.subrange(0, i as int),
        decreases n - i,
    {
        r.push(s.get_char(i));
        i += 1;
        assert(r@ =~= s@.subrange(0, i as int));
    }
    assert(r@ =~= s@);
    r
}

/// Copy a character range out of a source text.
pub fn copy_range(src: &Vec<char>, a: usize, b: usize) -> (r: Vec<char>)
    requires
        a <= b <= src@.len(),
    ensures
        r@ == src@.subrange(a as int, b as int),
{
    let mut r: Vec<char> = Vec::new();
    let mut i: usize = a;
    while i < b
        invariant
            a <= i <= b <= src@.len(),
            r@ == src@.subrange(a as int, i as int),
        decreases b - i,
    {
        r.push(src[i]);
        i += 1;
        assert(r@ =~= src@.subrange(a as int, i as int));
    }
    r
}

/// Compare two texts character for character.
pub fn text_eq(a: &Vec<char>, b: &Vec<char>) -> (r: bool)
    ensures
        r == (a@ == b@),
{
    if a.len() != b.len() {
        assert(a@ != b@);
        return false;
    }
    let n = a.len();
    let mut i: usize = 0;
    while i < n
        invariant
            i <= n,
            n == a@.len() == b@.len(),
            forall|j: int| 0 <= j < i ==> a@[j] == b@[j],
        decreases n - i,
    {
        if a[i] != b[i] {
            return false;
        }
        i += 1;
    }
    assert(a@ =~= b@);
    true
}

/// Compare a text against a string literal.
pub fn text_eq_str(a: &Vec<char>, s: &str) -> (r: bool)
    ensures
        r == (a@ == s@),
{
    let n = s.unicode_len();
    if a.len() != n {
        assert(a@ != s@);
        return false;
    }
    let mut i: usize = 0;
    while i < n
        invariant
            i <= n,
            n == a@.len() == s@.len(),
            forall|j: int| 0 <= j < i ==> a@[j] == s@[j],
        decreases n - i,
    {
        if a[i] != s.get_char(i) {
            return false;
        }
        i += 1;
    }
    assert(a@ =~= s@);
    true
}

/// Whether a text starts with the characters of a prefix.
pub open spec fn text_starts_with(t: Seq<char>, prefix: Seq<char>) -> bool {
    t.len() >= prefix.len() && t.subrange(0, prefix.len() as int) == prefix
}

/// Decide whether a text starts with a given string literal.
pub fn starts_with_str(a: &Vec<char>, s: &str) -> (r: bool)
    ensures
        r == text_starts_with(a@, s@),
{
    let n = s.unicode_len();
    if a.len() < n {
        return false;
    }
    let mut i: usize = 0;
    while i < n
        invariant
            i <= n,
            n == s@.len() <= a@.len(),
            forall|j: int| 0 <= j < i ==> a@[j] == s@[j],
        decreases n - i,
    {
        if a[i] != s.get_char(i) {
            assert(a@.subrange(0, n as int)[i as int] != s@[i as int]);
            return false;
        }
        i += 1;
    }
    assert(a@.subrange(0, n as int) =~= s@);
    true
}

/// Cut a source text into tokens that tile it.
pub fn tokenize(src: &Vec<char>) -> (toks: Vec<Token>)
    ensures
        tokens_tile(src@, toks.deep_view()),
        toks_canonical(src@, toks.deep_view()),
{
    let n = src.len();
    let mut toks: Vec<Token> = Vec::new();
    let mut i: usize = 0;
    while i < n
        invariant
            i <= n,
            n == src@.len(),
            forall|k: int|
                0 <= k < toks.deep_view().len() ==> token_wf(
                    src@,
                    #[trigger] toks.deep_view()[k],
                ),
            toks.deep_view().len() == 0 ==> i == 0,
            toks.deep_view().len() > 0 ==> toks.deep_view()[0].start == 0 && toks.deep_view()[
                toks.deep_view().len() - 1].end == i,
            forall|k: int|
                0 <= k < toks.deep_view().len() - 1 ==> (#[trigger] toks.deep_view()[k].end)
                    == toks.deep_view()[k + 1].start,
            toks_canonical(src@, toks.deep_view()),
        decreases n - i,
    {
        let start = i;
        let c = src[i];
        let kind: TokenKind;
        if blank_char(c) {
            i += 1;
            while i < n && blank_char(src[i])
                invariant
                    start < i <= n,
                    n == src@.len(),
                    forall|j: int| start <= j < i ==> is_blank_char(#[trigger] src@[j]),
                decreases n - i,
            {
                i += 1;
            }
            kind = TokenKind::Whitespace;
        } else if c == '\n' {
            i += 1;
            kind = TokenKind::Newline;
        } else if ident_start_char(c) {
            i += 1;
            while i < n && ident_char(src[i])
                invariant
                    start < i <= n,
                    n == src@.len(),
                    is_ident_start_char(src@[start as int]),
                    forall|j: int| start <= j < i ==> is_ident_char(#[trigger] src@[j]),
                decreases n - i,
            {
                i += 1;
            }
            kind = TokenKind::Ident;
        } else if digit_char(c) {
            i += 1;
            while i < n && digit_char(src[i])
                invariant
                    start < i <= n,
                    n == src@.len(),
                    forall|j: int| start <= j < i ==> is_digit_char(#[trigger] src@[j]),
                decreases n - i,
            {
                i += 1;
            }
            kind = TokenKind::Number;
        } else if c == '/' && i + 1 < n && src[i + 1] == '/' {
            i += 2;
            while i < n && src[i] != '\n'
                invariant
                    start + 2 <= i <= n,
                    n == src@.len(),
                    forall|j: int| start + 2 <= j < i ==> #[trigger] src@[j] != '\n',
                decreases n - i,
            {
                i += 1;
            }
            kind = TokenKind::Comment;
        } else if c == '/' && i + 1 < n && src[i + 1] == '*' {
            i += 2;
            let mut done = false;
            while !done
                invariant
                    start + 2 <= i <= n,
                    n == src@.len(),
                    !done ==> forall|j: int|
                        start + 2 <= j < i ==> !(j + 1 < src@.len() && #[trigger] src@[j] == '*'
                            && src@[j + 1] == '/'),
                    done ==> (i == n && forall|j: int|
                        start + 2 <= j < n ==> !(j + 1 < src@.len() && #[trigger] src@[j] == '*'
                            && src@[j + 1] == '/')) || (start + 4 <= i <= n && src@[i - 2] == '*'
                        && src@[i - 1] == '/' && forall|j: int|
                        start + 2 <= j < i - 2 ==> !(j + 1 < src@.len() && #[trigger] src@[j]
                            == '*' && src@[j + 1] == '/')),
                decreases n - i + (if done {
                    0int
                } else {
                    1int
                }),
            {
                if i >= n {
                    done = true;
                } else if src[i] == '*' && i + 1 < n && src[i + 1] == '/' {
                    i += 2;
                    done = true;
                } else {
                    i += 1;
                }
            }
            proof {
                if i == n && !(i >= start + 4 && src@[i - 2] == '*' && src@[i - 1] == '/'
                    && forall|j: int|
                    start + 2 <= j < i - 2 ==> !(j + 1 < src@.len() && #[trigger] src@[j] == '*'
                        && src@[j + 1] == '/')) {
                    lemma_block_open(src@, start as int + 2);
                } else {
                    lemma_block_closed(src@, start as int + 2, i as int - 2);
                }
                assert(i as int == block_comment_end(src@, start as int + 2));
            }
            kind = TokenKind::Comment;
        } else {
            i += 1;
            kind = TokenKind::Symbol;
        }
        proof {
            if is_blank_char(src@[start as int]) {
                lemma_run_blank(src@, start as int, i as int);
            } else if src@[start as int] == '\n' {
            } else if is_ident_start_char(src@[start as int]) {
                lemma_run_ident(src@, start as int + 1, i as int);
            } else if is_digit_char(src@[start as int]) {
                lemma_run_digit(src@, start as int, i as int);
            } else if src@[start as int] == '/' && start + 1 < n && src@[start as int + 1]
                == '/' {
                lemma_line_comment(src@, start as int + 2, i as int);
            } else if src@[start as int] == '/' && start + 1 < n && src@[start as int + 1]
                == '*' {
            } else {
            }
            assert(i as int == token_end_at(src@, start as int));
            assert(kind == token_kind_at(src@, start as int));
        }
        let text = copy_range(src, start, i);
        let t = Token { kind, start, end: i, text };
        assert(token_wf(src@, t@));
        let ghost prev = toks.deep_view();
        toks.push(t);
        proof {
            assert(toks.deep_view() =~= prev.push(t@));
        }
    }
    toks
}

} // verus!
