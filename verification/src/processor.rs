//! The preprocessor: state, file manager, and the event driver.
//!
//! A `Processor` owns the definition table, the extension stack, a cache of
//! parsed files, and an in-memory file system handed to it at construction.
//! `process` walks the root file's syntax tree, interprets directives,
//! expands macros, descends into included files depth-first, and returns
//! the ordered stream of events.

use vstd::prelude::*;

use crate::cst::{elem_toks, elems_flatten, elems_wf, Element, EltM, NodeKind};
use crate::defs::{
    contains_name, def_protected_m, lookup_name, DefinitionTable, Definition, UndefOutcome,
};
use crate::directive::{
    define_result, error_message, extension_result, inclusion_result, line_result,
    single_ident_result, version_result,
};
use crate::events::{
    Define, DirectiveKind, DirectiveKindM, Event, EventM, Extension, ExtensionName,
    ProcessingErrorKind, ProcessingErrorKindM, Profile, SourceSpan, Version,
};
use crate::expand::{expand_run, ExpandItem, MacroCtx};
use crate::lex::{
    chars_of, copy_range, text_eq, text_eq_str, text_starts_with, tokens_tile, toks_shaped, TokM,
    Token, TokenKind,
};
use crate::mask::{all_active, mask_step, IfState, MaskOp, MaskStack};
use crate::FileId;

verus! {

/// Operating mode for `#include` directives.
#[derive(Clone, Copy, Debug, PartialEq, Eq, Structural)]
pub enum IncludeMode {
    /// No `#include` directives are allowed.
    Disabled,
    /// `GL_ARB_shading_language_include` runtime inclusion.
    ArbInclude,
    /// `GL_GOOGLE_include_directive` compile-time inclusion.
    GoogleInclude,
}

impl Default for IncludeMode {
    fn default() -> (r: Self)
        ensures
            r == IncludeMode::Disabled,
    {
        IncludeMode::Disabled
    }
}

/// An in-memory file system: a mapping from path to text, fixed before
/// processing starts.
#[derive(Debug)]
pub struct VirtualFs {
    pub files: Vec<(Vec<char>, Vec<char>)>,
}

impl View for VirtualFs {
    type V = Seq<(Seq<char>, Seq<char>)>;

    open spec fn view(&self) -> Seq<(Seq<char>, Seq<char>)> {
        Seq::new(self.files@.len(), |i: int| (self.files@[i].0@, self.files@[i].1@))
    }
}

/// Whether some entry holds the path.
pub open spec fn fs_contains(s: Seq<(Seq<char>, Seq<char>)>, p: Seq<char>) -> bool {
    exists|i: int| 0 <= i < s.len() && (#[trigger] s[i]).0 == p
}

/// The index of the entry holding the path.
pub open spec fn fs_index(s: Seq<(Seq<char>, Seq<char>)>, p: Seq<char>) -> int {
    choose|i: int| 0 <= i < s.len() && (#[trigger] s[i]).0 == p
}

/// The text stored under the path.
pub open spec fn fs_at(s: Seq<(Seq<char>, Seq<char>)>, p: Seq<char>) -> Seq<char> {
    s[fs_index(s, p)].1
}

/// No two entries share a path.
pub open spec fn fs_paths_unique(s: Seq<(Seq<char>, Seq<char>)>) -> bool {
    forall|i: int, j: int| 0 <= i < j < s.len() ==> (#[trigger] s[i]).0 != (#[trigger] s[j]).0
}

impl VirtualFs {
    pub open spec fn wf(&self) -> bool {
        fs_paths_unique(self@)
    }

    /// An empty file system.
    pub fn new() -> (r: VirtualFs)
        ensures
            r@ =~= Seq::<(Seq<char>, Seq<char>)>::empty(),
            r.wf(),
    {
        let r = VirtualFs { files: Vec::new() };
        assert(r@ =~= Seq::<(Seq<char>, Seq<char>)>::empty());
        r
    }

    fn find(&self, path: &Vec<char>) -> (r: Option<usize>)
        ensures
            match r {
                Option::Some(i) => i < self@.len() && self@[i as int].0 == path@,
                Option::None => !fs_contains(self@, path@),
            },
    {
        let n = self.files.len();
        let mut i: usize = 0;
        while i < n
            invariant
                i <= n,
                n == self@.len(),
                forall|j: int| 0 <= j < i ==> (#[trigger] self@[j]).0 != path@,
            decreases n - i,
        {
            if text_eq(&self.files[i].0, path) {
                assert(self@[i as int].0 == path@);
                return Option::Some(i);
            }
            i += 1;
        }
        Option::None
    }

    /// Store a file, replacing any earlier text under the same path.
    pub fn add_file(&mut self, path: Vec<char>, contents: Vec<char>)
        requires
            old(self).wf(),
        ensures
            final(self).wf(),
            fs_contains(final(self)@, path@),
            fs_at(final(self)@, path@) == contents@,
            forall|p: Seq<char>|
                p != path@ ==> #[trigger] fs_contains(final(self)@, p) == fs_contains(
                    old(self)@,
                    p,
                ),
            forall|p: Seq<char>|
                p != path@ && fs_contains(old(self)@, p) ==> #[trigger] fs_at(final(self)@, p)
                    == fs_at(old(self)@, p),
    {
        let ghost prev = self@;
        let ghost pm = path@;
        let ghost cm = contents@;
        let found = self.find(&path);
        match found {
            Option::Some(i) => {
                self.files.set(i, (path, contents));
                proof {
                    assert(self@ =~= prev.update(i as int, (pm, cm)));
                    lemma_fs_update(prev, i as int, pm, cm);
                }
            },
            Option::None => {
                self.files.push((path, contents));
                proof {
                    assert(self@ =~= prev.push((pm, cm)));
                    lemma_fs_push(prev, pm, cm);
                }
            },
        }
    }

    /// Read the text under a path, if any.
    pub fn read(&self, path: &Vec<char>) -> (r: Option<Vec<char>>)
        requires
            self.wf(),
        ensures
            match r {
                Option::Some(c) => fs_contains(self@, path@) && c@ == fs_at(self@, path@),
                Option::None => !fs_contains(self@, path@),
            },
    {
        match self.find(path) {
            Option::Some(i) => {
                let c = copy_range(&self.files[i].1, 0, self.files[i].1.len());
                proof {
                    assert(c@ =~= self@[i as int].1);
                    let k = fs_index(self@, path@);
                    assert(0 <= k < self@.len() && self@[k].0 == path@);
                    assert(k == i as int);
                }
                Option::Some(c)
            },
            Option::None => Option::None,
        }
    }
}

/// Updating the entry of one path does not disturb the others.
proof fn lemma_fs_update(s: Seq<(Seq<char>, Seq<char>)>, i: int, p: Seq<char>, c: Seq<char>)
    requires
        fs_paths_unique(s),
        0 <= i < s.len(),
        s[i].0 == p,
    ensures
        fs_paths_unique(s.update(i, (p, c))),
        fs_contains(s.update(i, (p, c)), p),
        fs_at(s.update(i, (p, c)), p) == c,
        forall|q: Seq<char>|
            q != p ==> #[trigger] fs_contains(s.update(i, (p, c)), q) == fs_contains(s, q),
        forall|q: Seq<char>|
            q != p && fs_contains(s, q) ==> #[trigger] fs_at(s.update(i, (p, c)), q) == fs_at(
                s,
                q,
            ),
{
    let t = s.update(i, (p, c));
    assert forall|a: int, b: int| 0 <= a < b < t.len() implies (#[trigger] t[a]).0 != (
    #[trigger] t[b]).0 by {
        if a != i && b != i {
            assert(t[a] == s[a] && t[b] == s[b]);
        } else if a == i {
            assert(t[b] == s[b]);
            assert(s[b].0 != s[i].0);
        } else {
            assert(t[a] == s[a]);
            assert(s[a].0 != s[i].0);
        }
    }
    assert(t[i].0 == p);
    assert(fs_contains(t, p));
    let k = fs_index(t, p);
    assert(0 <= k < t.len() && t[k].0 == p);
    if k != i {
        assert(t[k] == s[k]);
        assert(s[k].0 != s[i].0);
        assert(false);
    }
    assert forall|q: Seq<char>| q != p implies #[trigger] fs_contains(t, q) == fs_contains(
        s,
        q,
    ) by {
        if fs_contains(s, q) {
            let m = fs_index(s, q);
            assert(0 <= m < s.len() && s[m].0 == q);
            assert(m != i);
            assert(t[m] == s[m]);
            assert(fs_contains(t, q));
        }
        if fs_contains(t, q) {
            let m = fs_index(t, q);
            assert(0 <= m < t.len() && t[m].0 == q);
            assert(m != i);
            assert(s[m] == t[m]);
            assert(fs_contains(s, q));
        }
    }
    assert forall|q: Seq<char>| q != p && fs_contains(s, q) implies #[trigger] fs_at(t, q)
        == fs_at(s, q) by {
        let m = fs_index(s, q);
        assert(0 <= m < s.len() && s[m].0 == q);
        assert(m != i);
        assert(t[m] == s[m]);
        assert(fs_contains(t, q));
        let m2 = fs_index(t, q);
        assert(0 <= m2 < t.len() && t[m2].0 == q);
        assert(m2 != i);
        assert(t[m2] == s[m2]);
        if m != m2 {
            assert(s[m].0 != s[m2].0);
        }
    }
}

/// Adding a fresh path does not disturb the others.
proof fn lemma_fs_push(s: Seq<(Seq<char>, Seq<char>)>, p: Seq<char>, c: Seq<char>)
    requires
        fs_paths_unique(s),
        !fs_contains(s, p),
    ensures
        fs_paths_unique(s.push((p, c))),
        fs_contains(s.push((p, c)), p),
        fs_at(s.push((p, c)), p) == c,
        forall|q: Seq<char>|
            q != p ==> #[trigger] fs_contains(s.push((p, c)), q) == fs_contains(s, q),
        forall|q: Seq<char>|
            q != p && fs_contains(s, q) ==> #[trigger] fs_at(s.push((p, c)), q) == fs_at(s, q),
{
    let t = s.push((p, c));
    assert forall|a: int, b: int| 0 <= a < b < t.len() implies (#[trigger] t[a]).0 != (
    #[trigger] t[b]).0 by {
        if b == t.len() - 1 {
            assert(t[b] == (p, c));
            assert(t[a] == s[a]);
            if s[a].0 == p {
                assert(fs_contains(s, p));
            }
        } else {
            assert(t[a] == s[a] && t[b] == s[b]);
        }
    }
    assert(t[t.len() - 1].0 == p);
    assert(fs_contains(t, p));
    let k = fs_index(t, p);
    assert(0 <= k < t.len() && t[k].0 == p);
    if k != t.len() - 1 {
        assert(t[k] == s[k]);
        assert(fs_contains(s, p));
    }
    assert forall|q: Seq<char>| q != p implies #[trigger] fs_contains(t, q) == fs_contains(
        s,
        q,
    ) by {
        if fs_contains(s, q) {
            let m = fs_index(s, q);
            assert(t[m] == s[m]);
            assert(fs_contains(t, q));
        }
        if fs_contains(t, q) {
            let m = fs_index(t, q);
            assert(0 <= m < t.len() && t[m].0 == q);
            assert(m != t.len() - 1);
            assert(s[m] == t[m]);
            assert(fs_contains(s, q));
        }
    }
    assert forall|q: Seq<char>| q != p && fs_contains(s, q) implies #[trigger] fs_at(t, q)
        == fs_at(s, q) by {
        let m = fs_index(s, q);
        assert(0 <= m < s.len() && s[m].0 == q);
        assert(t[m] == s[m]);
        assert(fs_contains(t, q));
        let m2 = fs_index(t, q);
        assert(0 <= m2 < t.len() && t[m2].0 == q);
        assert(m2 != t.len() - 1);
        assert(t[m2] == s[m2]);
        if m != m2 {
            assert(s[m].0 != s[m2].0);
        }
    }
}

/// The line-feed offsets of a text's prefix of length `i`.
pub open spec fn nl_positions(src: Seq<char>, i: int) -> Seq<usize>
    decreases i,
{
    if i <= 0 {
        Seq::empty()
    } else {
        nl_positions(src, i - 1) + if src[i - 1] == '\n' {
            seq![(i - 1) as usize]
        } else {
            Seq::empty()
        }
    }
}

/// A parsed file: its lossless element sequence and its line map.
#[derive(Debug)]
pub struct Ast {
    pub elements: Vec<Element>,
    pub nl_offsets: Vec<usize>,
}

/// The model of a parsed file.
#[verifier::ext_equal]
pub ghost struct AstM {
    pub elements: Seq<EltM>,
    pub nl: Seq<usize>,
}

impl View for Ast {
    type V = AstM;

    open spec fn view(&self) -> AstM {
        AstM { elements: self.elements.deep_view(), nl: self.nl_offsets@ }
    }
}

/// The parsed file faithfully models the source text: its tokens are the
/// source's one canonical tiling, every directive node carries its hash,
/// and the line map lists the line feeds.
pub open spec fn ast_models(src: Seq<char>, a: AstM) -> bool {
    &&& tokens_tile(src, elems_flatten(a.elements))
    &&& crate::lex::toks_canonical(src, elems_flatten(a.elements))
    &&& elems_wf(a.elements)
    &&& crate::cst::nodes_hash_marked(a.elements)
    &&& a.elements == crate::cst::group(elems_flatten(a.elements), 0, true)
    &&& a.nl == nl_positions(src, src.len() as int)
}

/// Parse a source text: tokenize, group into elements, record the line
/// feeds.
pub fn build_ast(src: &Vec<char>) -> (a: Ast)
    ensures
        ast_models(src@, a@),
{
    let toks = crate::lex::tokenize(src);
    let elements = crate::cst::build(toks);
    let n = src.len();
    let mut nl_offsets: Vec<usize> = Vec::new();
    let mut i: usize = 0;
    while i < n
        invariant
            i <= n,
            n == src@.len(),
            nl_offsets@ == nl_positions(src@, i as int),
        decreases n - i,
    {
        if src[i] == '\n' {
            nl_offsets.push(i);
        }
        i += 1;
        proof {
            assert(nl_offsets@ =~= nl_positions(src@, i as int));
        }
    }
    Ast { elements, nl_offsets }
}

impl Element {
    /// Copy an element; the copy has the same model.
    pub fn dup(&self) -> (r: Element)
        ensures
            r@ == self@,
    {
        match self {
            Element::Tok { tok } => Element::Tok { tok: tok.dup() },
            Element::Node { kind, toks } => {
                let mut out: Vec<Token> = Vec::new();
                let n = toks.len();
                let mut i: usize = 0;
                while i < n
                    invariant
                        i <= n,
                        n == toks@.len(),
                        out.deep_view() == toks.deep_view().subrange(0, i as int),
                    decreases n - i,
                {
                    let ghost prev = out.deep_view();
                    let t = toks[i].dup();
                    let ghost tm = t@;
                    out.push(t);
                    i += 1;
                    proof {
                        assert(out.deep_view() =~= prev.push(tm));
                        assert(out.deep_view() =~= toks.deep_view().subrange(0, i as int));
                    }
                }
                proof {
                    assert(out.deep_view() =~= toks.deep_view());
                }
                Element::Node { kind: *kind, toks: out }
            },
        }
    }
}

impl Ast {
    /// Copy a parsed file; the copy has the same model.
    pub fn dup(&self) -> (r: Ast)
        ensures
            r@ == self@,
    {
        let mut elements: Vec<Element> = Vec::new();
        let n = self.elements.len();
        let mut i: usize = 0;
        while i < n
            invariant
                i <= n,
                n == self.elements@.len(),
                elements.deep_view() == self.elements.deep_view().subrange(0, i as int),
            decreases n - i,
        {
            let ghost prev = elements.deep_view();
            let e = self.elements[i].dup();
            let ghost em = e@;
            elements.push(e);
            i += 1;
            proof {
                assert(elements.deep_view() =~= prev.push(em));
                assert(elements.deep_view() =~= self.elements.deep_view().subrange(0, i as int));
            }
        }
        let mut nl_offsets: Vec<usize> = Vec::new();
        let m = self.nl_offsets.len();
        let mut j: usize = 0;
        while j < m
            invariant
                j <= m,
                m == self.nl_offsets@.len(),
                nl_offsets@ == self.nl_offsets@.subrange(0, j as int),
            decreases m - j,
        {
            nl_offsets.push(self.nl_offsets[j]);
            j += 1;
            proof {
                assert(nl_offsets@ =~= self.nl_offsets@.subrange(0, j as int));
            }
        }
        proof {
            assert(elements.deep_view() =~= self.elements.deep_view());
            assert(nl_offsets@ =~= self.nl_offsets@);
        }
        let r = Ast { elements, nl_offsets };
        assert(r@ =~= self@);
        r
    }
}

/// Current state of the preprocessor.
#[derive(Debug)]
pub struct ProcessorState {
    /// Every `#extension` directive seen, most recent last, atop the
    /// initial `all : disable`.
    pub extension_stack: Vec<Extension>,
    /// Whether `#include` directives are allowed, and in which dialect.
    pub include_mode: IncludeMode,
    /// The macro definition table.
    pub definitions: DefinitionTable,
    /// The version in force.
    pub version: Version,
}

impl ProcessorState {
    pub open spec fn wf(&self) -> bool {
        self.definitions.wf()
    }
}

impl Default for ProcessorState {
    /// The state before the first source line: `all : disable` on the
    /// extension stack, inclusion off, the protected built-ins defined,
    /// version 110.
    fn default() -> (r: Self)
        ensures
            r.wf(),
            r.include_mode == IncludeMode::Disabled,
            r.version.number == 110 && r.version.profile == Profile::NoProfile,
            r.extension_stack.deep_view() == seq![
                (crate::events::ExtensionM {
                    name: crate::events::ExtensionNameM::All,
                    behavior: crate::events::ExtensionBehavior::Disable,
                }),
            ],
            r.definitions@.len() == 4,
            contains_name(r.definitions@, "GL_core_profile"@),
            contains_name(r.definitions@, "__LINE__"@),
            contains_name(r.definitions@, "__FILE__"@),
            contains_name(r.definitions@, "__VERSION__"@),
            lookup_name(r.definitions@, "__LINE__"@) == crate::defs::DefM::Line,
            lookup_name(r.definitions@, "__FILE__"@) == crate::defs::DefM::File,
            lookup_name(r.definitions@, "__VERSION__"@) == crate::defs::DefM::Version,
            ({
                // The one seeded regular definition: `GL_core_profile`,
                // protected, object-like, replaced by the single digit 1.
                lookup_name(r.definitions@, "GL_core_profile"@)
                    matches crate::defs::DefM::Regular { define, .. } && define.protected && (
                define.params matches Option::None) && define.body.len() == 1 && define.body[
                    0].kind == TokenKind::Number && crate::directive::dec_val(define.body[0].text)
                    == 1
            }),
            forall|n: Seq<char>|
                contains_name(r.definitions@, n) ==> def_protected_m(
                    #[trigger] lookup_name(r.definitions@, n),
                ),
    {
        proof {
            reveal_strlit("GL_core_profile");
            reveal_strlit("__LINE__");
            reveal_strlit("__FILE__");
            reveal_strlit("__VERSION__");
        }
        let mut definitions = DefinitionTable::new();
        let mut one: Vec<char> = Vec::new();
        one.push('1');
        let body_tok = Token { kind: TokenKind::Number, start: 0, end: 1, text: one };
        let mut body: Vec<Token> = Vec::new();
        body.push(body_tok);
        let core_profile = Define {
            name: chars_of("GL_core_profile"),
            params: Option::None,
            body,
            protected: true,
        };
        proof {
            assert("GL_core_profile"@.len() == 15);
            assert("__LINE__"@.len() == 8);
            assert("__FILE__"@.len() == 8);
            assert("__VERSION__"@.len() == 11);
            assert("__LINE__"@[2] == 'L' && "__FILE__"@[2] == 'F');
            assert("__LINE__"@ != "__FILE__"@);
        }
        definitions.insert_new(
            Definition::Regular { define: core_profile, file: FileId { id: 0 } },
        );
        proof {
            assert(definitions@.len() == 1);
            assert(crate::defs::def_name_m(definitions@[0]) == "GL_core_profile"@);
        }
        definitions.insert_new(Definition::Line);
        proof {
            assert(definitions@.len() == 2);
            assert(crate::defs::def_name_m(definitions@[1]) == "__LINE__"@);
        }
        definitions.insert_new(Definition::File);
        proof {
            assert(definitions@.len() == 3);
            assert(crate::defs::def_name_m(definitions@[2]) == "__FILE__"@);
        }
        definitions.insert_new(Definition::Version);
        let mut extension_stack: Vec<Extension> = Vec::new();
        extension_stack.push(
            Extension {
                name: ExtensionName::All,
                behavior: crate::events::ExtensionBehavior::Disable,
            },
        );
        let r = ProcessorState {
            extension_stack,
            include_mode: IncludeMode::Disabled,
            definitions,
            version: Version { number: 110, profile: Profile::NoProfile },
        };
        proof {
            assert(crate::defs::def_name_m(r.definitions@[0]) == "GL_core_profile"@);
            assert(crate::defs::def_name_m(r.definitions@[1]) == "__LINE__"@);
            assert(crate::defs::def_name_m(r.definitions@[2]) == "__FILE__"@);
            assert(crate::defs::def_name_m(r.definitions@[3]) == "__VERSION__"@);
            assert(contains_name(r.definitions@, "GL_core_profile"@));
            assert(contains_name(r.definitions@, "__LINE__"@));
            assert(contains_name(r.definitions@, "__FILE__"@));
            assert(contains_name(r.definitions@, "__VERSION__"@));
            assert(r.extension_stack.deep_view() =~= seq![
                (crate::events::ExtensionM {
                    name: crate::events::ExtensionNameM::All,
                    behavior: crate::events::ExtensionBehavior::Disable,
                }),
            ]);
            let k0 = crate::defs::index_of_name(r.definitions@, "GL_core_profile"@);
            assert(0 <= k0 < r.definitions@.len() && crate::defs::def_name_m(r.definitions@[k0])
                == "GL_core_profile"@);
            assert(k0 == 0);
            match lookup_name(r.definitions@, "GL_core_profile"@) {
                crate::defs::DefM::Regular { define, .. } => {
                    assert(define.body.len() == 1);
                    assert(define.body[0].text =~= seq!['1']);
                    assert(crate::directive::dec_val(define.body[0].text) == crate::directive::dec_val(
                        Seq::<char>::empty(),
                    ) * 10 + crate::directive::digit_val('1')) by {
                        assert(define.body[0].text.drop_last() =~= Seq::<char>::empty());
                    }
                },
                _ => {
                    assert(false);
                },
            }
            let k1 = crate::defs::index_of_name(r.definitions@, "__LINE__"@);
            assert(0 <= k1 < r.definitions@.len() && crate::defs::def_name_m(r.definitions@[k1])
                == "__LINE__"@);
            assert(k1 == 1);
            let k2 = crate::defs::index_of_name(r.definitions@, "__FILE__"@);
            assert(0 <= k2 < r.definitions@.len() && crate::defs::def_name_m(r.definitions@[k2])
                == "__FILE__"@);
            assert(k2 == 2);
            let k3 = crate::defs::index_of_name(r.definitions@, "__VERSION__"@);
            assert(0 <= k3 < r.definitions@.len() && crate::defs::def_name_m(r.definitions@[k3])
                == "__VERSION__"@);
            assert(k3 == 3);
            assert forall|n: Seq<char>| contains_name(r.definitions@, n) implies def_protected_m(
                #[trigger] lookup_name(r.definitions@, n),
            ) by {
                let k = crate::defs::index_of_name(r.definitions@, n);
                assert(0 <= k < r.definitions@.len() && crate::defs::def_name_m(
                    r.definitions@[k],
                ) == n);
                assert(def_protected_m(r.definitions@[k]));
            }
        }
        r
    }
}

/// Append one event; the stream grows by exactly that event.
fn push_event(out: &mut Vec<Event>, e: Event)
    ensures
        final(out).deep_view() == old(out).deep_view().push(e@),
{
    let ghost pre = out.deep_view();
    let ghost em = e@;
    out.push(e);
    proof {
        assert(out.deep_view() =~= pre.push(em));
    }
}

/// Handle a decoded `#define`: the directive event always comes first; a
/// protected name (every name beginning with `GL_`, and every name whose
/// current definition is protected) leaves the table unchanged and adds
/// exactly one protected-definition error; any other name updates the
/// table and adds no error.
pub fn handle_define(
    defs: &mut DefinitionTable,
    define: Define,
    file: FileId,
    span: SourceSpan,
    out: &mut Vec<Event>,
)
    requires
        old(defs).wf(),
    ensures
        final(defs).wf(),
        ({
            let name = define@.name;
            let dir_ev = (EventM::Directive {
                kind: (DirectiveKindM::Define { define: define@ }),
                span: span,
            });
            let err_ev = (EventM::Error {
                kind: (ProcessingErrorKindM::ProtectedDefine { ident: name, is_undef: false }),
                span: span,
            });
            if text_starts_with(name, "GL_"@) || (contains_name(old(defs)@, name)
                && def_protected_m(lookup_name(old(defs)@, name))) {
                final(defs)@ == old(defs)@ && final(out).deep_view() == old(out).deep_view()
                    + seq![dir_ev, err_ev]
            } else {
                contains_name(final(defs)@, name) && lookup_name(final(defs)@, name) == (
                crate::defs::DefM::Regular { define: define@, file: file })
                    && final(out).deep_view() == old(out).deep_view() + seq![dir_ev]
            }
        }),
        forall|m: Seq<char>|
            m != define@.name ==> #[trigger] contains_name(final(defs)@, m) == contains_name(
                old(defs)@,
                m,
            ),
        forall|m: Seq<char>|
            m != define@.name && contains_name(old(defs)@, m) ==> #[trigger] lookup_name(
                final(defs)@,
                m,
            ) == lookup_name(old(defs)@, m),
{
    let ghost base = out.deep_view();
    let ghost name = define@.name;
    let ghost dir_ev = (EventM::Directive {
        kind: (DirectiveKindM::Define { define: define@ }),
        span: span,
    });
    let ghost err_ev = (EventM::Error {
        kind: (ProcessingErrorKindM::ProtectedDefine { ident: name, is_undef: false }),
        span: span,
    });
    let record = define.dup();
    let name_is_gl = crate::lex::starts_with_str(&define.name, "GL_");
    let ident = copy_range(&define.name, 0, define.name.len());
    proof {
        assert(ident@ =~= define@.name);
        assert(record@ == define@);
    }
    push_event(out, Event::Directive { kind: DirectiveKind::Define { define: record }, span });
    proof {
        assert(out.deep_view() =~= base + seq![dir_ev]);
    }
    if name_is_gl {
        push_event(
            out,
            Event::Error {
                kind: ProcessingErrorKind::ProtectedDefine { ident, is_undef: false },
                span,
            },
        );
        proof {
            assert(out.deep_view() =~= base + seq![dir_ev, err_ev]);
        }
        return ;
    }
    let ok = defs.define(define, file);
    if !ok {
        push_event(
            out,
            Event::Error {
                kind: ProcessingErrorKind::ProtectedDefine { ident, is_undef: false },
                span,
            },
        );
        proof {
            assert(out.deep_view() =~= base + seq![dir_ev, err_ev]);
        }
    }
}

/// Handle a decoded `#undef`: the directive event always comes first; a
/// protected name (every name beginning with `GL_`, and every name whose
/// current definition is protected) leaves the table unchanged and adds
/// exactly one protected-definition error; otherwise the definition is
/// removed, and removing an absent name is not an error.
pub fn handle_undef(
    defs: &mut DefinitionTable,
    ident: Vec<char>,
    span: SourceSpan,
    out: &mut Vec<Event>,
)
    requires
        old(defs).wf(),
    ensures
        final(defs).wf(),
        ({
            let dir_ev = (EventM::Directive {
                kind: (DirectiveKindM::Undef { ident: ident@ }),
                span: span,
            });
            let err_ev = (EventM::Error {
                kind: (ProcessingErrorKindM::ProtectedDefine { ident: ident@, is_undef: true }),
                span: span,
            });
            if text_starts_with(ident@, "GL_"@) || (contains_name(old(defs)@, ident@)
                && def_protected_m(lookup_name(old(defs)@, ident@))) {
                final(defs)@ == old(defs)@ && final(out).deep_view() == old(out).deep_view()
                    + seq![dir_ev, err_ev]
            } else {
                !contains_name(final(defs)@, ident@)
                    && final(out).deep_view() == old(out).deep_view() + seq![dir_ev]
            }
        }),
        forall|m: Seq<char>|
            m != ident@ ==> #[trigger] contains_name(final(defs)@, m) == contains_name(
                old(defs)@,
                m,
            ),
        forall|m: Seq<char>|
            m != ident@ && contains_name(old(defs)@, m) ==> #[trigger] lookup_name(
                final(defs)@,
                m,
            ) == lookup_name(old(defs)@, m),
{
    let ghost base = out.deep_view();
    let ghost dir_ev = (EventM::Directive {
        kind: (DirectiveKindM::Undef { ident: ident@ }),
        span: span,
    });
    let ghost err_ev = (EventM::Error {
        kind: (ProcessingErrorKindM::ProtectedDefine { ident: ident@, is_undef: true }),
        span: span,
    });
    let ident2 = copy_range(&ident, 0, ident.len());
    proof {
        assert(ident2@ =~= ident@);
    }
    push_event(out, Event::Directive { kind: DirectiveKind::Undef { ident: ident2 }, span });
    proof {
        assert(out.deep_view() =~= base + seq![dir_ev]);
    }
    let outcome = defs.undef(&ident);
    if matches!(outcome, UndefOutcome::Protected) {
        push_event(
            out,
            Event::Error {
                kind: ProcessingErrorKind::ProtectedDefine { ident, is_undef: true },
                span,
            },
        );
        proof {
            assert(out.deep_view() =~= base + seq![dir_ev, err_ev]);
        }
    }
}

/// Every element is a terminal token: the file holds no directive.
pub open spec fn all_toks(es: Seq<EltM>) -> bool {
    forall|i: int| 0 <= i < es.len() ==> ((#[trigger] es[i]) matches EltM::Tok { .. })
}

/// The events a run of tokens becomes when it passes through unchanged.
pub open spec fn token_events(toks: Seq<TokM>, f: FileId) -> Seq<EventM> {
    toks.map_values(|t: TokM| EventM::Token { token: t, file: f })
}

/// Whether an event is the directive record of an `#include`.
pub open spec fn is_include_directive(e: EventM) -> bool {
    e matches EventM::Directive { kind: DirectiveKindM::Include { .. }, .. }
}

/// What may stand right after an inclusion directive: the included file's
/// boundary marker, or the report that the inclusion failed.
pub open spec fn include_follow_up(e: EventM) -> bool {
    ||| e matches EventM::EnterFile { .. }
    ||| e matches EventM::Error { kind: ProcessingErrorKindM::IncludeCycle, .. }
    ||| e matches EventM::Error { kind: ProcessingErrorKindM::IncludeNotFound, .. }
}

/// From `lo` on, every inclusion directive has its follow-up right behind
/// it: no event of an included file precedes the directive that included
/// it, and the boundary marker comes immediately after.
pub open spec fn includes_followed(es: Seq<EventM>, lo: int) -> bool {
    forall|k: int|
        lo <= k < es.len() && is_include_directive(#[trigger] es[k]) ==> k + 1 < es.len()
            && include_follow_up(es[k + 1])
}

/// The follow-up law composes across an extension of the stream.
proof fn lemma_includes_followed_compose(pre: Seq<EventM>, post: Seq<EventM>, lo: int)
    requires
        0 <= lo <= pre.len() <= post.len(),
        forall|k: int| 0 <= k < pre.len() ==> #[trigger] post[k] == pre[k],
        includes_followed(pre, lo),
        includes_followed(post, pre.len() as int),
    ensures
        includes_followed(post, lo),
{
    assert forall|k: int|
        lo <= k < post.len() && is_include_directive(#[trigger] post[k]) implies k + 1
        < post.len() && include_follow_up(post[k + 1]) by {
        if k < pre.len() {
            assert(pre[k] == post[k]);
            assert(k + 1 < pre.len());
            assert(post[k + 1] == pre[k + 1]);
        }
    }
}

/// Whether a directive kind takes part in conditional inclusion.
pub open spec fn is_conditional_kind(kind: NodeKind) -> bool {
    kind == NodeKind::IfDef || kind == NodeKind::IfNDef || kind == NodeKind::If || kind
        == NodeKind::Else || kind == NodeKind::EndIf
}

/// The inclusion mode after an `#extension` directive: the two inclusion
/// extensions switch it on when enabled and collapse it to off otherwise;
/// every other name leaves it alone.
pub open spec fn spec_include_mode_after(
    m: IncludeMode,
    em: crate::events::ExtensionM,
) -> IncludeMode {
    match em.name {
        crate::events::ExtensionNameM::Named { name } => if name
            == "GL_ARB_shading_language_include"@ {
            if em.behavior.spec_is_active() {
                IncludeMode::ArbInclude
            } else {
                IncludeMode::Disabled
            }
        } else if name == "GL_GOOGLE_include_directive"@ {
            if em.behavior.spec_is_active() {
                IncludeMode::GoogleInclude
            } else {
                IncludeMode::Disabled
            }
        } else {
            m
        },
        crate::events::ExtensionNameM::All => m,
    }
}

/// Whether an event is an error report.
pub open spec fn is_error_event(e: EventM) -> bool {
    e matches EventM::Error { .. }
}

/// Whether an event is an identifier token emitted verbatim.
pub open spec fn is_ident_token_event(e: EventM) -> bool {
    e matches EventM::Token { token, .. } && token.kind == TokenKind::Ident
}

/// What a run of tokens between directives may become: expanded tokens,
/// and the two macro-call failures.
pub open spec fn token_or_call_error(e: EventM) -> bool {
    ||| e matches EventM::Token { .. }
    ||| e matches EventM::Error { kind: ProcessingErrorKindM::UnterminatedMacroCall, .. }
    ||| e matches EventM::Error { kind: ProcessingErrorKindM::ArgArityMismatch, .. }
}

/// Hand one run of tokens between directives to the invocation engine and
/// append the outcome. Inside an excluded region nothing happens at all: a
/// masked token produces no event and no macro lookup. In an emitting
/// region the expanded tokens come out; a run with nothing defined passes
/// through unchanged, and every failed macro call is reported and then
/// immediately followed by its identifier emitted verbatim.
#[verifier::rlimit(100)]
pub fn emit_token_run(
    state: &ProcessorState,
    mask: &MaskStack,
    run: &Vec<Token>,
    ctx: &MacroCtx,
    file: FileId,
    span: SourceSpan,
    out: &mut Vec<Event>,
)
    requires
        state.wf(),
    ensures
        final(out).deep_view().len() >= old(out).deep_view().len(),
        forall|k: int|
            0 <= k < old(out).deep_view().len() ==> #[trigger] final(out).deep_view()[k] == old(
                out,
            ).deep_view()[k],
        !all_active(mask@) ==> final(out).deep_view() == old(out).deep_view(),
        all_active(mask@) && crate::expand::no_defined_idents(
            run.deep_view(),
            state.definitions@,
        ) ==> final(out).deep_view() == old(out).deep_view() + token_events(
            run.deep_view(),
            file,
        ),
        forall|k: int|
            old(out).deep_view().len() <= k < final(out).deep_view().len()
                ==> token_or_call_error(#[trigger] final(out).deep_view()[k]),
        forall|k: int|
            old(out).deep_view().len() <= k < final(out).deep_view().len() && is_error_event(
                #[trigger] final(out).deep_view()[k],
            ) ==> k + 1 < final(out).deep_view().len() && is_ident_token_event(
                final(out).deep_view()[k + 1],
            ),
{
    let ghost base = out.deep_view();
    if !mask.emit() {
        return ;
    }
    let painted: Vec<Vec<char>> = Vec::new();
    let mut items: Vec<ExpandItem> = Vec::new();
    proof {
        assert(crate::expand::painted_wf(painted.deep_view(), state.definitions@));
    }
    expand_run(&state.definitions, &painted, run, ctx, &mut items);
    let ghost runm = run.deep_view();
    let ghost nd = crate::expand::no_defined_idents(runm, state.definitions@);
    let ni = items.len();
    let mut w: usize = 0;
    while w < ni
        invariant
            w <= ni,
            ni == items@.len(),
            crate::expand::items_ok(items.deep_view()),
            crate::expand::errors_paired(items.deep_view(), 0),
            out.deep_view().len() >= base.len(),
            forall|k: int| 0 <= k < base.len() ==> #[trigger] out.deep_view()[k] == base[k],
            nd ==> items.deep_view() == crate::expand::items_of_toks(runm) && out.deep_view()
                == base + token_events(runm.subrange(0, w as int), file),
            forall|k: int|
                base.len() <= k < out.deep_view().len() ==> token_or_call_error(
                    #[trigger] out.deep_view()[k],
                ),
            forall|k: int|
                base.len() <= k < out.deep_view().len() - 1 && is_error_event(
                    #[trigger] out.deep_view()[k],
                ) ==> is_ident_token_event(out.deep_view()[k + 1]),
            out.deep_view().len() > base.len() && is_error_event(out.deep_view().last()) ==> (w
                < ni && crate::expand::is_verbatim_ident(items.deep_view()[w as int])),
        decreases ni - w,
    {
        let ghost pre_ev = out.deep_view();
        proof {
            assert(crate::expand::expand_item_ok(items.deep_view()[w as int]));
            if w + 1 < ni {
                assert(crate::expand::expand_item_ok(items.deep_view()[w as int + 1]));
            }
        }
        match &items[w] {
            ExpandItem::Tok { token } => {
                push_event(out, Event::Token { token: token.dup(), file });
            },
            ExpandItem::Error { kind } => {
                let kind2 = if matches!(kind, ProcessingErrorKind::UnterminatedMacroCall) {
                    ProcessingErrorKind::UnterminatedMacroCall
                } else {
                    ProcessingErrorKind::ArgArityMismatch
                };
                // The offending identifier follows the report; carry its
                // span rather than the whole run's.
                let espan = if w + 1 < ni {
                    match &items[w + 1] {
                        ExpandItem::Tok { token } => SourceSpan {
                            file,
                            start: token.start,
                            end: token.end,
                        },
                        ExpandItem::Error { .. } => span,
                    }
                } else {
                    span
                };
                push_event(out, Event::Error { kind: kind2, span: espan });
            },
        }
        w += 1;
        proof {
            if nd {
                assert(items.deep_view()[w - 1] == (crate::expand::ExpandItemM::Tok {
                    token: runm[w - 1],
                }));
                assert(out.deep_view() =~= base + token_events(
                    runm.subrange(0, w as int),
                    file,
                ));
            }
        }
    }
    proof {
        if nd {
            assert(runm.subrange(0, runm.len() as int) =~= runm);
        }
    }
}

/// The number of conditionals the first `i` elements leave open: each
/// `#if`/`#ifdef`/`#ifndef` opens one level, each `#endif` closes one
/// where any is open.
#[verifier::opaque]
pub open spec fn cond_depth(es: Seq<EltM>, i: int) -> int
    decreases i,
{
    if i <= 0 || i > es.len() {
        0
    } else {
        let d = cond_depth(es, i - 1);
        match es[i - 1] {
            EltM::Node { kind, .. } => if kind == NodeKind::If || kind == NodeKind::IfDef
                || kind == NodeKind::IfNDef {
                d + 1
            } else if kind == NodeKind::EndIf {
                if d > 0 {
                    d - 1
                } else {
                    d
                }
            } else {
                d
            },
            EltM::Tok { .. } => d,
        }
    }
}

/// Every `#ifdef`/`#ifndef` line of the tree decodes to its identifier.
pub open spec fn conditionals_decodable(es: Seq<EltM>) -> bool {
    forall|i: int|
        0 <= i < es.len() ==> match #[trigger] es[i] {
            EltM::Node { kind, toks } => (kind == NodeKind::IfDef || kind == NodeKind::IfNDef)
                ==> (single_ident_result(toks) matches Result::Ok { .. }),
            EltM::Tok { .. } => true,
        }
}

/// No element of the tree is an inclusion directive.
pub open spec fn no_inclusion_nodes(es: Seq<EltM>) -> bool {
    forall|i: int|
        0 <= i < es.len() ==> !((#[trigger] es[i]) matches EltM::Node {
            kind: NodeKind::Include,
            ..
        })
}

/// A run of terminal tokens leaves the open-conditional count alone.
proof fn lemma_cond_depth_tok_range(es: Seq<EltM>, a: int, b: int)
    requires
        0 <= a <= b <= es.len(),
        forall|k: int| a <= k < b ==> ((#[trigger] es[k]) matches EltM::Tok { .. }),
    ensures
        cond_depth(es, b) == cond_depth(es, a),
    decreases b - a,
{
    reveal(cond_depth);
    if a < b {
        lemma_cond_depth_tok_range(es, a, b - 1);
    }
}

/// Every node's tokens have the shape of their kinds.
pub open spec fn nodes_shaped(es: Seq<EltM>) -> bool {
    forall|i: int| 0 <= i < es.len() ==> toks_shaped(elem_toks(#[trigger] es[i]))
}

/// Two parses of the same source are the same tree: the canonical tiling
/// is unique and the grouping is a function of it, so the parsed-file
/// cache cannot change what a file parses to.
pub proof fn lemma_ast_unique(src: Seq<char>, a1: AstM, a2: AstM)
    requires
        ast_models(src, a1),
        ast_models(src, a2),
    ensures
        a1 == a2,
{
    crate::lex::lemma_canonical_unique(
        src,
        elems_flatten(a1.elements),
        elems_flatten(a2.elements),
    );
    assert(a1 =~= a2);
}

/// A parsed file that models a source is well shaped throughout.
pub proof fn lemma_ast_shaped(src: Seq<char>, a: AstM)
    requires
        ast_models(src, a),
    ensures
        nodes_shaped(a.elements),
        elems_wf(a.elements),
{
    assert forall|i: int| 0 <= i < a.elements.len() implies toks_shaped(
        elem_toks(#[trigger] a.elements[i]),
    ) by {
        crate::cst::lemma_node_toks_shaped(src, a.elements, i);
    }
}

/// The identifiers on the active inclusion stack are pairwise distinct,
/// assigned, and their files exist.
pub open spec fn stack_wf(
    st: Seq<u32>,
    ids: Seq<Seq<char>>,
    fs: Seq<(Seq<char>, Seq<char>)>,
) -> bool {
    &&& forall|a: int, b: int| 0 <= a < b < st.len() ==> #[trigger] st[a] != #[trigger] st[b]
    &&& forall|a: int|
        0 <= a < st.len() ==> 1 <= #[trigger] st[a] <= ids.len() && fs_contains(
            fs,
            ids[st[a] - 1],
        )
}

/// No two assigned paths repeat.
pub open spec fn ids_unique(ids: Seq<Seq<char>>) -> bool {
    forall|i: int, j: int| 0 <= i < j < ids.len() ==> #[trigger] ids[i] != #[trigger] ids[j]
}

/// Distinct active files, each present in a duplicate-free file system,
/// are no more numerous than the file system's entries.
proof fn lemma_stack_bound(st: Seq<u32>, ids: Seq<Seq<char>>, fs: Seq<(Seq<char>, Seq<char>)>)
    requires
        stack_wf(st, ids, fs),
        ids_unique(ids),
        fs_paths_unique(fs),
    ensures
        st.len() <= fs.len(),
    decreases st.len(),
{
    if st.len() > 0 {
        let last = st.last();
        let p = ids[last - 1];
        assert(fs_contains(fs, p));
        let k = fs_index(fs, p);
        assert(0 <= k < fs.len() && fs[k].0 == p);
        let fs2 = fs.remove(k);
        let st2 = st.drop_last();
        assert forall|a: int, b: int| 0 <= a < b < fs2.len() implies (#[trigger] fs2[a]).0 != (
        #[trigger] fs2[b]).0 by {
            let a0 = if a < k {
                a
            } else {
                a + 1
            };
            let b0 = if b < k {
                b
            } else {
                b + 1
            };
            assert(fs2[a] == fs[a0] && fs2[b] == fs[b0]);
        }
        assert forall|a: int| 0 <= a < st2.len() implies 1 <= #[trigger] st2[a] <= ids.len()
            && fs_contains(fs2, ids[st2[a] - 1]) by {
            assert(st2[a] == st[a]);
            assert(st[a] != last);
            let q = ids[st[a] - 1];
            assert(q != p);
            assert(fs_contains(fs, q));
            let m = fs_index(fs, q);
            assert(0 <= m < fs.len() && fs[m].0 == q);
            assert(m != k);
            let m2 = if m < k {
                m
            } else {
                m - 1
            };
            assert(fs2[m2] == fs[m]);
        }
        lemma_stack_bound(st2, ids, fs2);
    }
}

/// Preprocessor: the file manager, the parsed-file cache, and the current
/// state.
#[derive(Debug)]
pub struct Processor {
    /// Cache of parsed files, keyed by file identifier.
    pub file_cache: Vec<(u32, Ast)>,
    /// The path assigned to each identifier; the identifier is the index
    /// plus one, stable for the processor's lifetime.
    pub file_ids: Vec<Vec<char>>,
    /// Current state of the preprocessor.
    pub current_state: ProcessorState,
    /// The in-memory file system.
    pub fs: VirtualFs,
}

impl Processor {
    pub open spec fn wf(&self) -> bool {
        &&& self.current_state.wf()
        &&& self.fs.wf()
        &&& ids_unique(self.file_ids.deep_view())
        &&& forall|k: int|
            0 <= k < self.file_cache@.len() ==> {
                let id = (#[trigger] self.file_cache@[k]).0;
                &&& 1 <= id <= self.file_ids.deep_view().len()
                &&& fs_contains(self.fs@, self.file_ids.deep_view()[id - 1])
                &&& ast_models(
                    fs_at(self.fs@, self.file_ids.deep_view()[id - 1]),
                    self.file_cache@[k].1@,
                )
            }
    }

    pub fn new_with_fs(initial_state: ProcessorState, fs: VirtualFs) -> (r: Processor)
        requires
            initial_state.wf(),
            fs.wf(),
        ensures
            r.wf(),
            r.fs@ == fs@,
            r.current_state == initial_state,
            r.file_ids.deep_view() =~= Seq::<Seq<char>>::empty(),
            r.file_cache@ =~= Seq::<(u32, Ast)>::empty(),
    {
        let r = Processor {
            file_cache: Vec::new(),
            file_ids: Vec::new(),
            current_state: initial_state,
            fs,
        };
        assert(r.file_ids.deep_view() =~= Seq::<Seq<char>>::empty());
        assert(r.file_cache@ =~= Seq::<(u32, Ast)>::empty());
        r
    }

    pub fn new(initial_state: ProcessorState) -> (r: Processor)
        requires
            initial_state.wf(),
        ensures
            r.wf(),
            r.fs@ =~= Seq::<(Seq<char>, Seq<char>)>::empty(),
            r.current_state == initial_state,
    {
        Processor::new_with_fs(initial_state, VirtualFs::new())
    }

    /// Replace the current state, keeping the parsed-file cache and the
    /// assigned file identifiers.
    pub fn set_current_state(&mut self, state: ProcessorState)
        requires
            old(self).wf(),
            state.wf(),
        ensures
            final(self).wf(),
            final(self).current_state == state,
            final(self).fs == old(self).fs,
            final(self).file_ids == old(self).file_ids,
    {
        self.current_state = state;
    }

    /// Canonicalize a path, assign it a stable file identifier, read and
    /// parse the file, and cache the result. A later call for the same
    /// path answers from the cache.
    pub fn parse(&mut self, path: &Vec<char>) -> (r: Result<(FileId, Ast), ()>)
        requires
            old(self).wf(),
        ensures
            final(self).wf(),
            final(self).fs == old(self).fs,
            final(self).current_state == old(self).current_state,
            old(self).file_ids.deep_view().is_prefix_of(final(self).file_ids.deep_view()),
            match r {
                Result::Ok(p) => 1 <= p.0.id <= final(self).file_ids.deep_view().len()
                    && final(self).file_ids.deep_view()[p.0.id - 1] == path@ && fs_contains(
                    old(self).fs@,
                    path@,
                ) && ast_models(fs_at(old(self).fs@, path@), p.1@),
                Result::Err(u) => !fs_contains(old(self).fs@, path@) || old(self).file_ids@.len() >= 0xFFFF_FFF0,
            },
    {
        let ghost ids0 = self.file_ids.deep_view();
        // Assign or find the file identifier.
        let nids = self.file_ids.len();
        if nids >= 0xFFFF_FFF0 {
            return Result::Err(());
        }
        let mut id_val: u32 = 0;
        let mut i: usize = 0;
        while i < nids && id_val == 0
            invariant
                i <= nids,
                nids == self.file_ids@.len(),
                nids < 0xFFFF_FFF0,
                id_val == 0 ==> forall|j: int|
                    0 <= j < i ==> #[trigger] self.file_ids.deep_view()[j] != path@,
                id_val != 0 ==> 1 <= id_val <= nids && self.file_ids.deep_view()[id_val - 1]
                    == path@,
            decreases nids - i + (if id_val == 0 {
                1int
            } else {
                0int
            }),
        {
            proof {
                assert(self.file_ids.deep_view()[i as int] =~= self.file_ids@[i as int]@);
            }
            if text_eq(&self.file_ids[i], path) {
                id_val = (i as u32) + 1;
            } else {
                i += 1;
            }
        }
        if id_val == 0 {
            // A fresh path.
            let p2 = copy_range(path, 0, path.len());
            proof {
                assert(p2@ =~= path@);
            }
            let ghost prev_ids = self.file_ids.deep_view();
            self.file_ids.push(p2);
            id_val = (nids as u32) + 1;
            proof {
                assert(self.file_ids.deep_view() =~~= prev_ids.push(path@));
                assert forall|a: int, b: int|
                    0 <= a < b < self.file_ids.deep_view().len() implies
                    #[trigger] self.file_ids.deep_view()[a] != #[trigger] self.file_ids.deep_view()[
                    b] by {
                    if b == self.file_ids.deep_view().len() - 1 {
                        assert(self.file_ids.deep_view()[b] == path@);
                        assert(self.file_ids.deep_view()[a] == prev_ids[a]);
                    } else {
                        assert(self.file_ids.deep_view()[a] == prev_ids[a]
                            && self.file_ids.deep_view()[b] == prev_ids[b]);
                    }
                }
                assert(ids0.is_prefix_of(self.file_ids.deep_view()));
            }
        } else {
            proof {
                assert(ids0.is_prefix_of(self.file_ids.deep_view()));
            }
        }
        let id = FileId { id: id_val };
        proof {
            assert(self.file_ids.deep_view()[id_val - 1] == path@);
        }
        // Answer from the cache when the file was parsed before.
        let nc = self.file_cache.len();
        let mut k: usize = 0;
        while k < nc
            invariant
                k <= nc,
                nc == self.file_cache@.len(),
                self.wf(),
                self.fs == old(self).fs,
                self.current_state == old(self).current_state,
                ids0.is_prefix_of(self.file_ids.deep_view()),
                ids0 == old(self).file_ids.deep_view(),
                1 <= id_val as int <= self.file_ids.deep_view().len(),
                self.file_ids.deep_view()[id_val - 1] == path@,
                id.id == id_val,
            decreases nc - k,
        {
            if self.file_cache[k].0 == id_val {
                let ast = self.file_cache[k].1.dup();
                proof {
                    let idw = self.file_cache@[k as int].0;
                    assert(idw == id_val);
                    assert(1 <= idw <= self.file_ids.deep_view().len());
                    assert(self.file_ids.deep_view()[id_val - 1] == path@);
                }
                return Result::Ok((id, ast));
            }
            k += 1;
        }
        // Read and parse.
        match self.fs.read(path) {
            Option::None => Result::Err(()),
            Option::Some(content) => {
                let ast = build_ast(&content);
                let ret = ast.dup();
                let ghost prev_cache = self.file_cache@;
                self.file_cache.push((id_val, ast));
                proof {
                    assert forall|m: int| 0 <= m < self.file_cache@.len() implies {
                        let cid = (#[trigger] self.file_cache@[m]).0;
                        &&& 1 <= cid <= self.file_ids.deep_view().len()
                        &&& fs_contains(self.fs@, self.file_ids.deep_view()[cid - 1])
                        &&& ast_models(
                            fs_at(self.fs@, self.file_ids.deep_view()[cid - 1]),
                            self.file_cache@[m].1@,
                        )
                    } by {
                        if m < prev_cache.len() {
                            assert(self.file_cache@[m] == prev_cache[m]);
                        } else {
                            assert(self.file_cache@[m] == (id_val, ast));
                        }
                    }
                }
                Result::Ok((id, ret))
            },
        }
    }
}

impl Default for Processor {
    /// A processor over an empty file system, in the default state.
    fn default() -> (r: Self)
        ensures
            r.wf(),
    {
        Processor::new_with_fs(ProcessorState::default(), VirtualFs::new())
    }
}

/// Join a quoted inclusion path onto the directory of the current file.
pub fn join_path(dir: &Vec<char>, p: &Vec<char>) -> (r: Vec<char>)
    ensures
        r@ == if dir@.len() == 0 {
            p@
        } else {
            dir@ + seq!['/'] + p@
        },
{
    if dir.len() == 0 {
        let r = copy_range(p, 0, p.len());
        proof {
            assert(r@ =~= p@);
        }
        r
    } else {
        let mut r = copy_range(dir, 0, dir.len());
        r.push('/');
        let n = p.len();
        let mut i: usize = 0;
        while i < n
            invariant
                i <= n,
                n == p@.len(),
                r@ == dir@ + seq!['/'] + p@.subrange(0, i as int),
            decreases n - i,
        {
            r.push(p[i]);
            i += 1;
            proof {
                assert(r@ =~= dir@ + seq!['/'] + p@.subrange(0, i as int));
            }
        }
        proof {
            assert(r@ =~= dir@ + seq!['/'] + p@);
        }
        r
    }
}

/// The directory part of a path: everything before the last `/`, or the
/// empty text when there is none.
pub fn dirname(path: &Vec<char>) -> (r: Vec<char>)
    ensures
        r@.len() <= path@.len(),
        r@ == path@.subrange(0, r@.len() as int),
        r@.len() > 0 ==> path@[r@.len() as int] == '/',
        forall|j: int| r@.len() < j < path@.len() ==> path@[j] != '/',
{
    let n = path.len();
    let mut cut: usize = 0;
    let mut saw = false;
    let mut i: usize = 0;
    while i < n
        invariant
            i <= n,
            cut < i || (cut == 0 && i == 0),
            n == path@.len(),
            saw ==> path@[cut as int] == '/',
            saw ==> forall|j: int| cut < j < i ==> path@[j] != '/',
            !saw ==> cut == 0 && forall|j: int| 0 <= j < i ==> path@[j] != '/',
        decreases n - i,
    {
        if path[i] == '/' {
            cut = i;
            saw = true;
        }
        i += 1;
    }
    let r = copy_range(path, 0, cut);
    proof {
        if !saw {
            assert(r@.len() == 0);
        }
    }
    r
}

/// Whether a file identifier is on the active inclusion stack.
fn stack_contains(stack: &Vec<u32>, id: u32) -> (r: bool)
    ensures
        r == (exists|i: int| 0 <= i < stack@.len() && #[trigger] stack@[i] == id),
{
    let n = stack.len();
    let mut i: usize = 0;
    while i < n
        invariant
            i <= n,
            n == stack@.len(),
            forall|j: int| 0 <= j < i ==> #[trigger] stack@[j] != id,
        decreases n - i,
    {
        if stack[i] == id {
            return true;
        }
        i += 1;
    }
    false
}

/// A fresh copy of the active stack.
fn copy_stack(stack: &Vec<u32>) -> (r: Vec<u32>)
    ensures
        r@ == stack@,
{
    let n = stack.len();
    let mut r: Vec<u32> = Vec::new();
    let mut i: usize = 0;
    while i < n
        invariant
            i <= n,
            n == stack@.len(),
            r@ == stack@.subrange(0, i as int),
        decreases n - i,
    {
        r.push(stack[i]);
        i += 1;
        proof {
            assert(r@ =~= stack@.subrange(0, i as int));
        }
    }
    proof {
        assert(r@ =~= stack@);
    }
    r
}

impl ProcessorState {
    /// Interpret one directive node: decode it, apply its effect to the
    /// state and the mask stack, and append its events. Returns the
    /// inclusion request of an `#include` that is to be honored. Each
    /// directive kind's full effect — on the mask stack, the state, the
    /// line map, and the event stream — is pinned against the decode
    /// specifications.
    #[verifier::rlimit(100)]
    pub fn handle_node(
        &mut self,
        kind: NodeKind,
        toks: &Vec<Token>,
        mask: &mut MaskStack,
        ctx: &mut MacroCtx,
        span: SourceSpan,
        out: &mut Vec<Event>,
    ) -> (inc: Option<(Vec<char>, bool)>)
        requires
            old(self).wf(),
            toks_shaped(toks.deep_view()),
        ensures
            final(self).wf(),
            final(out).deep_view().len() >= old(out).deep_view().len(),
            forall|k: int|
                0 <= k < old(out).deep_view().len() ==> #[trigger] final(out).deep_view()[k]
                    == old(out).deep_view()[k],
            kind != NodeKind::Include ==> (inc matches Option::None),
            (inc matches Option::Some { .. }) ==> kind == NodeKind::Include && all_active(
                old(mask)@,
            ) && old(self).include_mode != IncludeMode::Disabled,
            (inc matches Option::None) ==> forall|k: int|
                old(out).deep_view().len() <= k < final(out).deep_view().len()
                    ==> !is_include_directive(#[trigger] final(out).deep_view()[k]),
            forall|k: int|
                old(out).deep_view().len() <= k < final(out).deep_view().len()
                    ==> !crate::events::is_unterminated_conditional(
                    #[trigger] final(out).deep_view()[k],
                ),
            ({
                // An honored inclusion appends its directive event and
                // nothing after it: every event of the included file
                // follows the inclusion directive.
                inc matches Option::Some(req) ==> final(out).deep_view() == old(out).deep_view().push(
                    (EventM::Directive {
                        kind: (DirectiveKindM::Include { path: req.0@, quoted: req.1 }),
                        span: span,
                    }),
                )
            }),
            ({
                // The mask stack: only the conditional directives move it,
                // and each moves it by exactly one abstract step.
                let tv = toks.deep_view();
                let emit0 = all_active(old(mask)@);
                &&& (!is_conditional_kind(kind) ==> final(mask)@ == old(mask)@)
                &&& (kind == NodeKind::Else ==> final(mask)@ == mask_step(
                    old(mask)@,
                    MaskOp::ElseOp,
                ))
                &&& (kind == NodeKind::EndIf ==> final(mask)@ == mask_step(
                    old(mask)@,
                    MaskOp::EndOp,
                ))
                &&& (kind == NodeKind::If ==> final(mask)@ == old(mask)@.push(
                    (IfState::NotYet { else_seen: false }),
                ))
                &&& ((kind == NodeKind::IfDef || kind == NodeKind::IfNDef) && !emit0
                    ==> final(mask)@ == old(mask)@.push((IfState::NotYet { else_seen: false })))
                &&& (kind == NodeKind::IfDef && emit0 ==> (match single_ident_result(tv) {
                    Result::Ok(id) => final(mask)@ == old(mask)@.push(
                        if contains_name(old(self).definitions@, id) {
                            IfState::Active { else_seen: false }
                        } else {
                            IfState::NotYet { else_seen: false }
                        },
                    ),
                    Result::Err(e) => final(mask)@ == old(mask)@,
                }))
                &&& (kind == NodeKind::IfNDef && emit0 ==> (match single_ident_result(tv) {
                    Result::Ok(id) => final(mask)@ == old(mask)@.push(
                        if contains_name(old(self).definitions@, id) {
                            IfState::NotYet { else_seen: false }
                        } else {
                            IfState::Active { else_seen: false }
                        },
                    ),
                    Result::Err(e) => final(mask)@ == old(mask)@,
                }))
            }),
            ({
                // The state: only `#version`, `#extension`, `#define` and
                // `#undef` move it, only in an emitting region, and each
                // exactly as its decode says.
                let tv = toks.deep_view();
                let emit0 = all_active(old(mask)@);
                &&& (!(kind == NodeKind::Version || kind == NodeKind::Extension || kind
                    == NodeKind::Define || kind == NodeKind::Undef) ==> *final(self) == *old(self))
                &&& (!emit0 ==> *final(self) == *old(self))
                &&& (kind == NodeKind::Version && emit0 ==> (match version_result(tv) {
                    Result::Ok(v) => final(self).version == v && final(self).definitions == old(self).definitions && final(self).include_mode == old(self).include_mode && final(self).extension_stack == old(self).extension_stack,
                    Result::Err(e) => *final(self) == *old(self),
                }))
                &&& (kind == NodeKind::Extension && emit0 ==> (match extension_result(tv) {
                    Result::Ok(em) => final(self).extension_stack.deep_view() == old(self).extension_stack.deep_view().push(em) && final(self).include_mode
                        == spec_include_mode_after(old(self).include_mode, em) && final(self).version == old(self).version && final(self).definitions == old(self).definitions,
                    Result::Err(e) => *final(self) == *old(self),
                }))
                &&& (kind == NodeKind::Define && emit0 ==> (match define_result(tv) {
                    Result::Ok(dm) => final(self).version == old(self).version && final(self).include_mode == old(self).include_mode && final(self).extension_stack
                        == old(self).extension_stack && (if text_starts_with(dm.name, "GL_"@)
                        || (contains_name(old(self).definitions@, dm.name) && def_protected_m(
                        lookup_name(old(self).definitions@, dm.name),
                    )) {
                        final(self).definitions@ == old(self).definitions@
                    } else {
                        contains_name(final(self).definitions@, dm.name) && lookup_name(
                            final(self).definitions@,
                            dm.name,
                        ) == (crate::defs::DefM::Regular { define: dm, file: span.file })
                    }) && (forall|m: Seq<char>|
                        m != dm.name ==> #[trigger] contains_name(final(self).definitions@, m)
                            == contains_name(old(self).definitions@, m)) && (forall|m: Seq<char>|
                        m != dm.name && contains_name(old(self).definitions@, m)
                            ==> #[trigger] lookup_name(final(self).definitions@, m) == lookup_name(
                            old(self).definitions@,
                            m,
                        )),
                    Result::Err(e) => *final(self) == *old(self),
                }))
                &&& (kind == NodeKind::Undef && emit0 ==> (match single_ident_result(tv) {
                    Result::Ok(id) => final(self).version == old(self).version && final(self).include_mode == old(self).include_mode && final(self).extension_stack
                        == old(self).extension_stack && (if text_starts_with(id, "GL_"@)
                        || (contains_name(old(self).definitions@, id) && def_protected_m(
                        lookup_name(old(self).definitions@, id),
                    )) {
                        final(self).definitions@ == old(self).definitions@
                    } else {
                        !contains_name(final(self).definitions@, id)
                    }) && (forall|m: Seq<char>|
                        m != id ==> #[trigger] contains_name(final(self).definitions@, m)
                            == contains_name(old(self).definitions@, m)) && (forall|m: Seq<char>|
                        m != id && contains_name(old(self).definitions@, m)
                            ==> #[trigger] lookup_name(final(self).definitions@, m) == lookup_name(
                            old(self).definitions@,
                            m,
                        )),
                    Result::Err(e) => *final(self) == *old(self),
                }))
            }),
            ({
                // The events: each arm appends exactly what its decode and
                // the mask state dictate.
                let tv = toks.deep_view();
                let emit0 = all_active(old(mask)@);
                &&& (!emit0 && kind != NodeKind::Else && kind != NodeKind::EndIf ==> final(out).deep_view() == old(out).deep_view())
                &&& ((kind == NodeKind::Empty || kind == NodeKind::If) ==> final(out).deep_view()
                    == old(out).deep_view())
                &&& (kind == NodeKind::Unknown && emit0 ==> final(out).deep_view() == old(out).deep_view().push(
                    (EventM::Error {
                        kind: (ProcessingErrorKindM::Unhandled { node_kind: NodeKind::Unknown }),
                        span: span,
                    }),
                ))
                &&& (kind == NodeKind::Version && emit0 ==> (match version_result(tv) {
                    Result::Ok(v) => final(out).deep_view() == old(out).deep_view().push(
                        (EventM::Directive {
                            kind: (DirectiveKindM::Version { version: v }),
                            span: span,
                        }),
                    ),
                    Result::Err(e) => final(out).deep_view() == old(out).deep_view().push(
                        (EventM::Error { kind: e, span: span }),
                    ),
                }))
                &&& (kind == NodeKind::Extension && emit0 ==> (match extension_result(tv) {
                    Result::Ok(em) => final(out).deep_view() == old(out).deep_view().push(
                        (EventM::Directive {
                            kind: (DirectiveKindM::Extension { extension: em }),
                            span: span,
                        }),
                    ),
                    Result::Err(e) => final(out).deep_view() == old(out).deep_view().push(
                        (EventM::Error { kind: e, span: span }),
                    ),
                }))
                &&& (kind == NodeKind::Define && emit0 ==> (match define_result(tv) {
                    Result::Ok(dm) => if text_starts_with(dm.name, "GL_"@) || (contains_name(
                        old(self).definitions@,
                        dm.name,
                    ) && def_protected_m(lookup_name(old(self).definitions@, dm.name))) {
                        final(out).deep_view() == old(out).deep_view() + seq![
                            (EventM::Directive {
                                kind: (DirectiveKindM::Define { define: dm }),
                                span: span,
                            }),
                            (EventM::Error {
                                kind: (ProcessingErrorKindM::ProtectedDefine {
                                    ident: dm.name,
                                    is_undef: false,
                                }),
                                span: span,
                            }),
                        ]
                    } else {
                        final(out).deep_view() == old(out).deep_view().push(
                            (EventM::Directive {
                                kind: (DirectiveKindM::Define { define: dm }),
                                span: span,
                            }),
                        )
                    },
                    Result::Err(e) => final(out).deep_view() == old(out).deep_view().push(
                        (EventM::Error { kind: e, span: span }),
                    ),
                }))
                &&& (kind == NodeKind::Undef && emit0 ==> (match single_ident_result(tv) {
                    Result::Ok(id) => if text_starts_with(id, "GL_"@) || (contains_name(
                        old(self).definitions@,
                        id,
                    ) && def_protected_m(lookup_name(old(self).definitions@, id))) {
                        final(out).deep_view() == old(out).deep_view() + seq![
                            (EventM::Directive {
                                kind: (DirectiveKindM::Undef { ident: id }),
                                span: span,
                            }),
                            (EventM::Error {
                                kind: (ProcessingErrorKindM::ProtectedDefine {
                                    ident: id,
                                    is_undef: true,
                                }),
                                span: span,
                            }),
                        ]
                    } else {
                        final(out).deep_view() == old(out).deep_view().push(
                            (EventM::Directive {
                                kind: (DirectiveKindM::Undef { ident: id }),
                                span: span,
                            }),
                        )
                    },
                    Result::Err(e) => final(out).deep_view() == old(out).deep_view().push(
                        (EventM::Error { kind: e, span: span }),
                    ),
                }))
                &&& (kind == NodeKind::IfDef && emit0 ==> (match single_ident_result(tv) {
                    Result::Ok(id) => final(out).deep_view() == old(out).deep_view().push(
                        (EventM::Directive {
                            kind: (DirectiveKindM::IfDef { ident: id }),
                            span: span,
                        }),
                    ),
                    Result::Err(e) => final(out).deep_view() == old(out).deep_view().push(
                        (EventM::Error { kind: e, span: span }),
                    ),
                }))
                &&& (kind == NodeKind::IfNDef && emit0 ==> (match single_ident_result(tv) {
                    Result::Ok(id) => final(out).deep_view() == old(out).deep_view().push(
                        (EventM::Directive {
                            kind: (DirectiveKindM::IfNDef { ident: id }),
                            span: span,
                        }),
                    ),
                    Result::Err(e) => final(out).deep_view() == old(out).deep_view().push(
                        (EventM::Error { kind: e, span: span }),
                    ),
                }))
                &&& (kind == NodeKind::Error && emit0 ==> final(out).deep_view() == old(out).deep_view() + seq![
                    (EventM::Directive {
                        kind: (DirectiveKindM::Error { message: error_message(tv) }),
                        span: span,
                    }),
                    (EventM::Error {
                        kind: (ProcessingErrorKindM::ErrorDirective {
                            message: error_message(tv),
                        }),
                        span: span,
                    }),
                ])
                &&& (kind == NodeKind::Line && emit0 ==> (match line_result(tv) {
                    Result::Ok(pair) => final(out).deep_view() == old(out).deep_view().push(
                        (EventM::Directive {
                            kind: (DirectiveKindM::Line {
                                line: pair.0,
                                source_number: pair.1,
                            }),
                            span: span,
                        }),
                    ),
                    Result::Err(e) => final(out).deep_view() == old(out).deep_view().push(
                        (EventM::Error { kind: e, span: span }),
                    ),
                }))
                &&& (kind == NodeKind::Include && emit0 && old(self).include_mode
                    == IncludeMode::Disabled ==> final(out).deep_view() == old(out).deep_view().push(
                    (EventM::Error {
                        kind: ProcessingErrorKindM::IncludeNotEnabled,
                        span: span,
                    }),
                ))
                &&& (kind == NodeKind::Include && emit0 && old(self).include_mode
                    != IncludeMode::Disabled ==> (match inclusion_result(tv) {
                    Result::Ok(pq) => final(out).deep_view() == old(out).deep_view().push(
                        (EventM::Directive {
                            kind: (DirectiveKindM::Include { path: pq.0, quoted: pq.1 }),
                            span: span,
                        }),
                    ) && (inc matches Option::Some(req) && req.0@ == pq.0 && req.1 == pq.1),
                    Result::Err(e) => final(out).deep_view() == old(out).deep_view().push(
                        (EventM::Error { kind: e, span: span }),
                    ) && (inc matches Option::None),
                }))
            }),
            ({
                // A stray `#else` is reported exactly once, whatever the
                // mask says; a well-placed one yields its directive event.
                kind == NodeKind::Else ==> final(out).deep_view() == old(out).deep_view().push(
                    if old(mask)@.len() == 0 || crate::mask::frame_else_seen(old(mask)@.last()) {
                        (EventM::Error { kind: ProcessingErrorKindM::ExtraElse, span: span })
                    } else {
                        (EventM::Directive { kind: DirectiveKindM::Else, span: span })
                    },
                )
            }),
            ({
                // A stray `#endif` is reported exactly once; a well-placed
                // one yields its directive event only where the enclosing
                // state emits again.
                kind == NodeKind::EndIf ==> final(out).deep_view() == (
                if old(mask)@.len() == 0 {
                    old(out).deep_view().push(
                        (EventM::Error { kind: ProcessingErrorKindM::ExtraEndIf, span: span }),
                    )
                } else if all_active(old(mask)@.drop_last()) {
                    old(out).deep_view().push(
                        (EventM::Directive { kind: DirectiveKindM::EndIf, span: span }),
                    )
                } else {
                    old(out).deep_view()
                })
            }),
            ({
                // The line map moves only under a decoded `#line`.
                let tv = toks.deep_view();
                let emit0 = all_active(old(mask)@);
                &&& (kind != NodeKind::Line ==> *final(ctx) == *old(ctx))
                &&& (kind == NodeKind::Line && !emit0 ==> *final(ctx) == *old(ctx))
                &&& (kind == NodeKind::Line && emit0 ==> (match line_result(tv) {
                    Result::Ok(pair) => final(ctx).nl_offsets == old(ctx).nl_offsets && final(ctx).file == old(ctx).file && final(ctx).version == old(ctx).version && final(ctx).line_shift_active && final(ctx).line_declared == pair.0 && final(ctx).line_anchor as int == ({
                        let c = crate::expand::count_lt(old(ctx).nl_offsets@, span.end as int);
                        if c >= 0xFFFF_FFFF {
                            0xFFFF_FFFF
                        } else {
                            c + 1
                        }
                    }),
                    Result::Err(e) => *final(ctx) == *old(ctx),
                }))
            }),
    {
        let emit = mask.emit();
        match kind {
            NodeKind::Empty => Option::None,
            NodeKind::Version => {
                if emit {
                    match crate::directive::decode_version(toks) {
                        Result::Ok(version) => {
                            self.version = version;
                            push_event(
                                out,
                                Event::Directive {
                                    kind: DirectiveKind::Version { version },
                                    span,
                                },
                            );
                        },
                        Result::Err(e) => {
                            push_event(out, Event::Error { kind: e, span });
                        },
                    }
                }
                Option::None
            },
            NodeKind::Extension => {
                if emit {
                    match crate::directive::decode_extension(toks) {
                        Result::Ok(extension) => {
                            let ghost em = extension@;
                            let ghost stack0 = self.extension_stack.deep_view();
                            let copy = extension.dup();
                            self.extension_stack.push(copy);
                            proof {
                                assert(self.extension_stack.deep_view() =~= stack0.push(em));
                            }
                            let target: Option<IncludeMode> = match &extension.name {
                                ExtensionName::Named { name } => {
                                    if text_eq_str(name, "GL_ARB_shading_language_include") {
                                        Option::Some(IncludeMode::ArbInclude)
                                    } else if text_eq_str(name, "GL_GOOGLE_include_directive") {
                                        Option::Some(IncludeMode::GoogleInclude)
                                    } else {
                                        Option::None
                                    }
                                },
                                ExtensionName::All => Option::None,
                            };
                            match target {
                                Option::Some(mode) => {
                                    if extension.behavior.is_active() {
                                        self.include_mode = mode;
                                    } else {
                                        self.include_mode = IncludeMode::Disabled;
                                    }
                                },
                                Option::None => {},
                            }
                            proof {
                                assert(self.include_mode == spec_include_mode_after(
                                    old(self).include_mode,
                                    em,
                                ));
                            }
                            push_event(
                                out,
                                Event::Directive {
                                    kind: DirectiveKind::Extension { extension },
                                    span,
                                },
                            );
                        },
                        Result::Err(e) => {
                            push_event(out, Event::Error { kind: e, span });
                        },
                    }
                }
                Option::None
            },
            NodeKind::Define => {
                if emit {
                    match crate::directive::decode_define(toks) {
                        Result::Ok(define) => {
                            handle_define(&mut self.definitions, define, span.file, span, out);
                        },
                        Result::Err(e) => {
                            push_event(out, Event::Error { kind: e, span });
                        },
                    }
                }
                Option::None
            },
            NodeKind::IfDef => {
                if emit {
                    match crate::directive::decode_single_ident(toks) {
                        Result::Ok(ident) => {
                            let pred = self.definitions.defined(&ident);
                            mask.push_level(pred);
                            push_event(
                                out,
                                Event::Directive { kind: DirectiveKind::IfDef { ident }, span },
                            );
                        },
                        Result::Err(e) => {
                            push_event(out, Event::Error { kind: e, span });
                        },
                    }
                } else {
                    mask.push_level(false);
                }
                Option::None
            },
            NodeKind::IfNDef => {
                if emit {
                    match crate::directive::decode_single_ident(toks) {
                        Result::Ok(ident) => {
                            let pred = !self.definitions.defined(&ident);
                            mask.push_level(pred);
                            push_event(
                                out,
                                Event::Directive {
                                    kind: DirectiveKind::IfNDef { ident },
                                    span,
                                },
                            );
                        },
                        Result::Err(e) => {
                            push_event(out, Event::Error { kind: e, span });
                        },
                    }
                } else {
                    mask.push_level(false);
                }
                Option::None
            },
            NodeKind::If => {
                // Expression evaluation is not modeled: the new level is
                // inactive whatever the condition says.
                mask.push_level(false);
                proof {
                    assert(mask@ == old(mask)@.push((IfState::NotYet { else_seen: false })));
                }
                Option::None
            },
            NodeKind::Else => {
                let took = mask.on_else();
                proof {
                    assert(mask@ == mask_step(old(mask)@, MaskOp::ElseOp));
                }
                if took {
                    push_event(out, Event::Directive { kind: DirectiveKind::Else, span });
                } else {
                    push_event(out, Event::Error { kind: ProcessingErrorKind::ExtraElse, span });
                }
                Option::None
            },
            NodeKind::EndIf => {
                let took = mask.on_endif();
                proof {
                    assert(mask@ == mask_step(old(mask)@, MaskOp::EndOp));
                }
                if took {
                    if mask.emit() {
                        push_event(out, Event::Directive { kind: DirectiveKind::EndIf, span });
                    }
                } else {
                    push_event(
                        out,
                        Event::Error { kind: ProcessingErrorKind::ExtraEndIf, span },
                    );
                }
                Option::None
            },
            NodeKind::Undef => {
                if emit {
                    match crate::directive::decode_single_ident(toks) {
                        Result::Ok(ident) => {
                            handle_undef(&mut self.definitions, ident, span, out);
                        },
                        Result::Err(e) => {
                            push_event(out, Event::Error { kind: e, span });
                        },
                    }
                }
                Option::None
            },
            NodeKind::Error => {
                if emit {
                    let message = crate::directive::decode_error_directive(toks);
                    let message2 = copy_range(&message, 0, message.len());
                    proof {
                        assert(message2@ =~= message@);
                    }
                    push_event(
                        out,
                        Event::Directive { kind: DirectiveKind::Error { message }, span },
                    );
                    push_event(
                        out,
                        Event::Error {
                            kind: ProcessingErrorKind::ErrorDirective { message: message2 },
                            span,
                        },
                    );
                }
                Option::None
            },
            NodeKind::Include => {
                if emit {
                    if matches!(self.include_mode, IncludeMode::Disabled) {
                        push_event(
                            out,
                            Event::Error {
                                kind: ProcessingErrorKind::IncludeNotEnabled,
                                span,
                            },
                        );
                        Option::None
                    } else {
                        match crate::directive::decode_inclusion(toks) {
                            Result::Ok(record) => {
                                match record {
                                    DirectiveKind::Include { path, quoted } => {
                                        let path2 = copy_range(&path, 0, path.len());
                                        proof {
                                            assert(path2@ =~= path@);
                                        }
                                        push_event(
                                            out,
                                            Event::Directive {
                                                kind: DirectiveKind::Include { path, quoted },
                                                span,
                                            },
                                        );
                                        Option::Some((path2, quoted))
                                    },
                                    _ => Option::None,
                                }
                            },
                            Result::Err(e) => {
                                push_event(out, Event::Error { kind: e, span });
                                Option::None
                            },
                        }
                    }
                } else {
                    Option::None
                }
            },
            NodeKind::Line => {
                if emit {
                    match crate::directive::decode_line(toks) {
                        Result::Ok(record) => {
                            match record {
                                DirectiveKind::Line { line, source_number } => {
                                    // The line after the directive carries
                                    // the declared number.
                                    let nn = ctx.nl_offsets.len();
                                    let mut c: usize = 0;
                                    let mut i: usize = 0;
                                    while i < nn
                                        invariant
                                            i <= nn,
                                            c <= i,
                                            nn == ctx.nl_offsets@.len(),
                                            c == crate::expand::count_lt(
                                                ctx.nl_offsets@.subrange(0, i as int),
                                                span.end as int,
                                            ),
                                        decreases nn - i,
                                    {
                                        proof {
                                            let sub = ctx.nl_offsets@.subrange(0, i as int + 1);
                                            assert(sub.drop_last() =~= ctx.nl_offsets@.subrange(
                                                0,
                                                i as int,
                                            ));
                                            assert(sub.last() == ctx.nl_offsets@[i as int]);
                                        }
                                        if ctx.nl_offsets[i] < span.end {
                                            c += 1;
                                        }
                                        i += 1;
                                    }
                                    proof {
                                        assert(ctx.nl_offsets@.subrange(0, nn as int)
                                            =~= ctx.nl_offsets@);
                                    }
                                    ctx.line_shift_active = true;
                                    ctx.line_anchor = if c >= 0xFFFF_FFFF as usize {
                                        0xFFFF_FFFF
                                    } else {
                                        (c as u32) + 1
                                    };
                                    ctx.line_declared = line;
                                    push_event(
                                        out,
                                        Event::Directive {
                                            kind: DirectiveKind::Line { line, source_number },
                                            span,
                                        },
                                    );
                                },
                                _ => {},
                            }
                        },
                        Result::Err(e) => {
                            push_event(out, Event::Error { kind: e, span });
                        },
                    }
                }
                Option::None
            },
            NodeKind::Unknown => {
                if emit {
                    push_event(
                        out,
                        Event::Error {
                            kind: ProcessingErrorKind::Unhandled { node_kind: NodeKind::Unknown },
                            span,
                        },
                    );
                }
                Option::None
            },
        }
    }
}

/// Report one unterminated conditional per frame still open at the end of
/// a file.
fn finish_file(mask: &MaskStack, file: FileId, end: usize, out: &mut Vec<Event>)
    ensures
        final(out).deep_view() == old(out).deep_view() + Seq::new(
            mask@.len(),
            |i: int|
                (EventM::Error {
                    kind: ProcessingErrorKindM::UnterminatedConditional,
                    span: (SourceSpan { file: file, start: end, end: end }),
                }),
        ),
{
    let ghost base = out.deep_view();
    let d = mask.depth();
    let mut k: usize = 0;
    while k < d
        invariant
            k <= d,
            d == mask@.len(),
            out.deep_view() == base + Seq::new(
                k as nat,
                |i: int|
                    (EventM::Error {
                        kind: ProcessingErrorKindM::UnterminatedConditional,
                        span: (SourceSpan { file: file, start: end, end: end }),
                    }),
            ),
        decreases d - k,
    {
        push_event(
            out,
            Event::Error {
                kind: ProcessingErrorKind::UnterminatedConditional,
                span: SourceSpan { file, start: end, end },
            },
        );
        k += 1;
        proof {
            assert(out.deep_view() =~= base + Seq::new(
                k as nat,
                |i: int|
                    (EventM::Error {
                        kind: ProcessingErrorKindM::UnterminatedConditional,
                        span: (SourceSpan { file: file, start: end, end: end }),
                    }),
            ));
        }
    }
}

/// The character offset just past the last token of a file.
fn file_end_offset(elements: &Vec<Element>) -> (r: usize) {
    let n = elements.len();
    if n == 0 {
        return 0;
    }
    match &elements[n - 1] {
        Element::Tok { tok } => tok.end,
        Element::Node { toks, .. } => {
            let m = toks.len();
            if m == 0 {
                0
            } else {
                toks[m - 1].end
            }
        },
    }
}

impl Processor {
    /// Walk one file's elements: interpret directives, expand and emit the
    /// runs of tokens between them, descend into included files
    /// depth-first, and report every conditional left open at the end —
    /// exactly one report per frame, so a well-formed file reports none.
    #[verifier::rlimit(100)]
    pub fn process_file(
        &mut self,
        file_id: FileId,
        ast: Ast,
        dir: Vec<char>,
        stack: &Vec<u32>,
        out: &mut Vec<Event>,
    )
        requires
            old(self).wf(),
            elems_wf(ast@.elements),
            nodes_shaped(ast@.elements),
            stack_wf(stack@, old(self).file_ids.deep_view(), old(self).fs@),
        ensures
            final(self).wf(),
            final(self).fs == old(self).fs,
            old(self).file_ids.deep_view().is_prefix_of(final(self).file_ids.deep_view()),
            final(out).deep_view().len() >= old(out).deep_view().len(),
            forall|k: int|
                0 <= k < old(out).deep_view().len() ==> #[trigger] final(out).deep_view()[k]
                    == old(out).deep_view()[k],
            all_toks(ast@.elements) && crate::expand::no_defined_idents(
                elems_flatten(ast@.elements),
                old(self).current_state.definitions@,
            ) ==> final(out).deep_view() == old(out).deep_view() + token_events(
                elems_flatten(ast@.elements),
                file_id,
            ),
            includes_followed(final(out).deep_view(), old(out).deep_view().len() as int),
            (conditionals_decodable(ast@.elements) && no_inclusion_nodes(ast@.elements))
                ==> crate::events::count_matching(
                final(out).deep_view().subrange(
                    old(out).deep_view().len() as int,
                    final(out).deep_view().len() as int,
                ),
                crate::events::unterminated_pred(),
            ) == cond_depth(ast@.elements, ast@.elements.len() as int),
        decreases self.fs@.len() - stack@.len(),
    {
        proof {
            lemma_stack_bound(stack@, self.file_ids.deep_view(), self.fs@);
        }
        let ghost fs0 = self.fs;
        let ghost ids0 = self.file_ids.deep_view();
        let ghost base = out.deep_view();
        let Ast { elements, nl_offsets } = ast;
        let ghost es0 = elements.deep_view();
        let ghost quiet = all_toks(es0) && crate::expand::no_defined_idents(
            elems_flatten(es0),
            old(self).current_state.definitions@,
        );
        let ghost p1p = conditionals_decodable(es0) && no_inclusion_nodes(es0);
        proof {
            reveal(cond_depth);
            assert(cond_depth(es0, 0) == 0);
        }
        let mut mask = MaskStack::new();
        let mut ctx = MacroCtx {
            file: file_id.id,
            version: self.current_state.version.number,
            nl_offsets,
            line_shift_active: false,
            line_anchor: 0,
            line_declared: 0,
        };
        let end_off = file_end_offset(&elements);
        let n = elements.len();
        let mut pos: usize = 0;
        while pos < n
            invariant
                pos <= n,
                n == elements@.len(),
                elems_wf(elements.deep_view()),
                nodes_shaped(elements.deep_view()),
                self.wf(),
                self.fs == fs0,
                fs0 == old(self).fs,
                ids0.is_prefix_of(self.file_ids.deep_view()),
                ids0 == old(self).file_ids.deep_view(),
                stack_wf(stack@, self.file_ids.deep_view(), self.fs@),
                out.deep_view().len() >= base.len(),
                forall|k: int|
                    0 <= k < base.len() ==> #[trigger] out.deep_view()[k] == base[k],
                base == old(out).deep_view(),
                es0 == elements.deep_view(),
                quiet == (all_toks(es0) && crate::expand::no_defined_idents(
                    elems_flatten(es0),
                    old(self).current_state.definitions@,
                )),
                quiet ==> mask@.len() == 0 && self.current_state == old(self).current_state
                    && out.deep_view() == base + token_events(
                    elems_flatten(es0.subrange(0, pos as int)),
                    file_id,
                ),
                includes_followed(out.deep_view(), base.len() as int),
                p1p == (conditionals_decodable(es0) && no_inclusion_nodes(es0)),
                p1p ==> mask@.len() == cond_depth(es0, pos as int),
                p1p ==> forall|k: int|
                    base.len() <= k < out.deep_view().len()
                        ==> !crate::events::is_unterminated_conditional(
                        #[trigger] out.deep_view()[k],
                    ),
            decreases n - pos,
        {
            proof {
                reveal(cond_depth);
                if p1p && pos == 0 {
                    assert(cond_depth(es0, 0) == 0);
                }
            }
            let ghost pre_iter = out.deep_view();
            let ghost pre_pos = pos;
            let ghost pre_mask = mask@;
            let is_tok = matches!(&elements[pos], Element::Tok { .. });
            if is_tok {
                // Gather the whole run of tokens up to the next directive
                // and hand it to the invocation engine as one step.
                let mut run: Vec<Token> = Vec::new();
                let mut run_start: usize = 0;
                let mut run_end: usize = 0;
                match &elements[pos] {
                    Element::Tok { tok } => {
                        run_start = tok.start;
                        run_end = tok.end;
                        let t = tok.dup();
                        let ghost tm = t@;
                        run.push(t);
                        proof {
                            assert(run.deep_view() =~= seq![tm]);
                            assert(elem_toks(es0[pos as int]) =~= seq![tm]);
                        }
                    },
                    Element::Node { .. } => {},
                }
                let mut q: usize = pos + 1;
                proof {
                    let sub = es0.subrange(pos as int, pos as int + 1);
                    assert(sub.drop_last() =~= Seq::<EltM>::empty());
                    assert(sub.last() == es0[pos as int]);
                    assert(elems_flatten(sub) == elems_flatten(sub.drop_last()) + elem_toks(
                        sub.last(),
                    ));
                    assert(run.deep_view() =~= elems_flatten(sub));
                }
                while q < n && matches!(&elements[q], Element::Tok { .. })
                    invariant
                        pos < q <= n,
                        n == elements@.len(),
                        es0 == elements.deep_view(),
                        run.deep_view() == elems_flatten(es0.subrange(pos as int, q as int)),
                        forall|k: int|
                            pos <= k < q ==> ((#[trigger] es0[k]) matches EltM::Tok { .. }),
                    decreases n - q,
                {
                    let ghost prev_run = run.deep_view();
                    match &elements[q] {
                        Element::Tok { tok } => {
                            run_end = tok.end;
                            run.push(tok.dup());
                        },
                        Element::Node { .. } => {},
                    }
                    q += 1;
                    proof {
                        let sub = es0.subrange(pos as int, q as int);
                        assert(sub.drop_last() =~= es0.subrange(pos as int, q as int - 1));
                        assert(sub.last() == es0[q as int - 1]);
                        assert(elems_flatten(sub) == elems_flatten(sub.drop_last()) + elem_toks(
                            sub.last(),
                        ));
                        assert(run.deep_view() =~= elems_flatten(sub));
                    }
                }
                proof {
                    if quiet {
                        assert(q == n) by {
                            if q < n {
                                assert(es0[q as int] matches EltM::Tok { .. });
                            }
                        }
                        assert(es0.subrange(0, pos as int) + es0.subrange(pos as int, n as int)
                            =~= es0);
                        crate::cst::lemma_flatten_concat(
                            es0.subrange(0, pos as int),
                            es0.subrange(pos as int, n as int),
                        );
                        assert forall|k: int|
                            0 <= k < run.deep_view().len() implies ((
                        #[trigger] run.deep_view()[k]).kind == TokenKind::Ident
                            ==> !contains_name(
                            self.current_state.definitions@,
                            run.deep_view()[k].text,
                        )) by {
                            let off = elems_flatten(es0.subrange(0, pos as int)).len();
                            assert(elems_flatten(es0)[off + k] == run.deep_view()[k]);
                        }
                        assert(crate::expand::no_defined_idents(
                            run.deep_view(),
                            self.current_state.definitions@,
                        ));
                    }
                }
                ctx.version = self.current_state.version.number;
                let span = SourceSpan { file: file_id, start: run_start, end: run_end };
                let ghost pre_run = out.deep_view();
                emit_token_run(&self.current_state, &mask, &run, &ctx, file_id, span, out);
                pos = q;
                proof {
                    assert forall|k: int|
                        pre_run.len() <= k < out.deep_view().len() implies !is_include_directive(
                        #[trigger] out.deep_view()[k],
                    ) by {
                        assert(token_or_call_error(out.deep_view()[k]));
                    }
                    if p1p {
                        lemma_cond_depth_tok_range(es0, pre_pos as int, pos as int);
                        assert forall|k: int|
                            pre_run.len() <= k < out.deep_view().len() implies
                            !crate::events::is_unterminated_conditional(
                            #[trigger] out.deep_view()[k],
                        ) by {
                            assert(token_or_call_error(out.deep_view()[k]));
                        }
                    }
                    if quiet {
                        assert(all_active(mask@));
                        assert(out.deep_view() == pre_run + token_events(
                            elems_flatten(es0.subrange(pre_pos as int, pos as int)),
                            file_id,
                        ));
                        crate::cst::lemma_flatten_concat(
                            es0.subrange(0, pre_pos as int),
                            es0.subrange(pre_pos as int, pos as int),
                        );
                        assert(es0.subrange(0, pre_pos as int) + es0.subrange(
                            pre_pos as int,
                            pos as int,
                        ) =~= es0.subrange(0, pos as int));
                        assert(out.deep_view() =~= base + token_events(
                            elems_flatten(es0.subrange(0, pos as int)),
                            file_id,
                        ));
                    }
                }
            } else {
                proof {
                    if quiet {
                        assert(es0[pos as int] matches EltM::Tok { .. });
                        assert(false);
                    }
                }
                // A directive node.
                let mut inc_req: Option<(Vec<char>, bool)> = Option::None;
                let mut span = SourceSpan { file: file_id, start: 0, end: 0 };
                match &elements[pos] {
                    Element::Node { kind, toks } => {
                        proof {
                            assert(elements.deep_view()[pos as int] matches EltM::Node {
                                toks: tv,
                                ..
                            } && tv.len() > 0 && toks_shaped(tv));
                            assert(toks.deep_view().len() > 0);
                        }
                        span = SourceSpan {
                            file: file_id,
                            start: toks[0].start,
                            end: toks[toks.len() - 1].end,
                        };
                        let ghost before_hn = out.deep_view();
                        inc_req = self.current_state.handle_node(
                            *kind,
                            toks,
                            &mut mask,
                            &mut ctx,
                            span,
                            out,
                        );
                        proof {
                            if p1p {
                                assert(before_hn == pre_iter);
                                assert forall|k: int|
                                    pre_iter.len() <= k < out.deep_view().len() implies
                                    !crate::events::is_unterminated_conditional(
                                    #[trigger] out.deep_view()[k],
                                ) by {}
                            }
                        }
                    },
                    Element::Tok { .. } => {},
                }
                pos += 1;
                proof {
                    if p1p {
                        reveal(cond_depth);
                        match es0[pre_pos as int] {
                            EltM::Node { kind: nk, toks: ntv } => {
                                if nk == NodeKind::IfDef || nk == NodeKind::IfNDef {
                                    assert(single_ident_result(ntv) matches Result::Ok { .. });
                                }
                                assert(mask@.len() == cond_depth(es0, pos as int));
                            },
                            EltM::Tok { .. } => {
                                assert(false);
                            },
                        }
                        assert forall|k: int|
                            base.len() <= k < out.deep_view().len() implies
                            !crate::events::is_unterminated_conditional(
                            #[trigger] out.deep_view()[k],
                        ) by {
                            if k >= pre_iter.len() {
                                assert(!crate::events::is_unterminated_conditional(
                                    out.deep_view()[k],
                                ));
                            } else {
                                assert(out.deep_view()[k] == pre_iter[k]);
                            }
                        }
                    }
                }
                match inc_req {
                    Option::Some(req) => {
                        proof {
                            if p1p {
                                assert(es0[pre_pos as int] matches EltM::Node {
                                    kind: NodeKind::Include,
                                    ..
                                });
                                assert(false);
                            }
                        }
                        let (ipath, quoted) = req;
                        let full = if quoted {
                            join_path(&dir, &ipath)
                        } else {
                            ipath
                        };
                        let parsed = self.parse(&full);
                        match parsed {
                            Result::Err(_) => {
                                push_event(
                                    out,
                                    Event::Error {
                                        kind: ProcessingErrorKind::IncludeNotFound,
                                        span,
                                    },
                                );
                            },
                            Result::Ok(pair) => {
                                let (cid, cast) = pair;
                                if stack_contains(stack, cid.id) {
                                    push_event(
                                        out,
                                        Event::Error {
                                            kind: ProcessingErrorKind::IncludeCycle,
                                            span,
                                        },
                                    );
                                } else {
                                    let full2 = copy_range(&full, 0, full.len());
                                    proof {
                                        assert(full2@ =~= full@);
                                    }
                                    push_event(
                                        out,
                                        Event::EnterFile { file_id: cid, path: full2 },
                                    );
                                    proof {
                                        lemma_ast_shaped(fs_at(self.fs@, full@), cast@);
                                    }
                                    let mut stack2 = copy_stack(stack);
                                    stack2.push(cid.id);
                                    proof {
                                        assert forall|a: int, b: int|
                                            0 <= a < b < stack2@.len() implies #[trigger] stack2@[
                                        a] != #[trigger] stack2@[b] by {
                                            if b == stack2@.len() - 1 {
                                                assert(stack2@[b] == cid.id);
                                                assert(stack2@[a] == stack@[a]);
                                            } else {
                                                assert(stack2@[a] == stack@[a] && stack2@[b]
                                                    == stack@[b]);
                                            }
                                        }
                                        assert forall|a: int|
                                            0 <= a < stack2@.len() implies 1 <= #[trigger] stack2@[
                                        a] <= self.file_ids.deep_view().len() && fs_contains(
                                            self.fs@,
                                            self.file_ids.deep_view()[stack2@[a] - 1],
                                        ) by {
                                            if a == stack2@.len() - 1 {
                                                assert(stack2@[a] == cid.id);
                                                assert(self.file_ids.deep_view()[cid.id - 1]
                                                    == full@);
                                            } else {
                                                assert(stack2@[a] == stack@[a]);
                                            }
                                        }
                                        assert(stack_wf(
                                            stack2@,
                                            self.file_ids.deep_view(),
                                            self.fs@,
                                        ));
                                        assert(stack2@.len() == stack@.len() + 1);
                                        lemma_stack_bound(
                                            stack2@,
                                            self.file_ids.deep_view(),
                                            self.fs@,
                                        );
                                    }
                                    let cdir = dirname(&full);
                                    let ghost after_enter = out.deep_view();
                                    self.process_file(cid, cast, cdir, &stack2, out);
                                    proof {
                                        assert(includes_followed(
                                            after_enter,
                                            pre_iter.len() as int,
                                        ));
                                        lemma_includes_followed_compose(
                                            after_enter,
                                            out.deep_view(),
                                            pre_iter.len() as int,
                                        );
                                    }
                                }
                            },
                        }
                    },
                    Option::None => {},
                }
            }
            proof {
                assert(includes_followed(out.deep_view(), pre_iter.len() as int));
                lemma_includes_followed_compose(pre_iter, out.deep_view(), base.len() as int);
            }
        }
        let ghost pre_finish = out.deep_view();
        finish_file(&mask, file_id, end_off, out);
        proof {
            assert(includes_followed(out.deep_view(), pre_finish.len() as int));
            lemma_includes_followed_compose(pre_finish, out.deep_view(), base.len() as int);
            if p1p {
                let pred = crate::events::unterminated_pred();
                let before = pre_finish.subrange(base.len() as int, pre_finish.len() as int);
                assert forall|k: int| 0 <= k < before.len() implies !pred(#[trigger] before[k]) by {
                    assert(before[k] == pre_finish[base.len() + k]);
                    assert(!crate::events::is_unterminated_conditional(
                        pre_finish[base.len() + k],
                    ));
                }
                crate::events::lemma_count_matching_zero(before, pred);
                let reports = Seq::new(
                    mask@.len(),
                    |i: int|
                        (EventM::Error {
                            kind: ProcessingErrorKindM::UnterminatedConditional,
                            span: (SourceSpan { file: file_id, start: end_off, end: end_off }),
                        }),
                );
                assert forall|k: int| 0 <= k < reports.len() implies pred(
                    #[trigger] reports[k],
                ) by {
                    assert(crate::events::is_unterminated_conditional(reports[k]));
                }
                crate::events::lemma_count_matching_all(reports, pred);
                assert(out.deep_view().subrange(base.len() as int, out.deep_view().len() as int)
                    =~= before + reports);
                crate::events::lemma_count_matching_concat(before, reports, pred);
                assert(mask@.len() == cond_depth(es0, n as int));
            }
        }
        proof {
            if quiet {
                assert(es0.subrange(0, n as int) =~= es0);
                assert(out.deep_view() =~= pre_finish);
                assert(out.deep_view() == base + token_events(elems_flatten(es0), file_id));
            }
        }
    }

    /// Process the file at `entry`: the returned stream starts with the
    /// file-boundary marker of the root file, or holds a single read error
    /// when the root cannot be read.
    pub fn process(&mut self, entry: &Vec<char>) -> (r: Expand)
        requires
            old(self).wf(),
        ensures
            final(self).wf(),
            fs_contains(old(self).fs@, entry@) && old(self).file_ids@.len() < 0xFFFF_FFF0
                ==> r.events.deep_view().len() >= 1 && (r.events.deep_view()[0]
                matches EventM::EnterFile { path: p, .. } && p == entry@),
            !fs_contains(old(self).fs@, entry@) ==> r.events.deep_view() =~= seq![
                (EventM::IoError {
                    path: entry@,
                    span: (SourceSpan {
                        file: (FileId { id: 0 }),
                        start: 0,
                        end: 0,
                    }),
                }),
            ],
            ({
                // Inclusion keeps its order: every inclusion directive of
                // the stream is immediately followed by the included
                // file's boundary marker, or by the report that the
                // inclusion failed — no event of an included file
                // precedes the directive that included it.
                includes_followed(r.events.deep_view(), 0)
            }),
            ({
                // One unterminated-conditional report per conditional the
                // root file leaves open — none for a well-formed file.
                // Stated for sources whose conditional lines decode and
                // which include no other file.
                let content = fs_at(old(self).fs@, entry@);
                (fs_contains(old(self).fs@, entry@) && old(self).file_ids@.len() < 0xFFFF_FFF0)
                    ==> forall|toksm: Seq<TokM>|
                    #![auto]
                    (crate::lex::tokens_tile(content, toksm) && crate::lex::toks_canonical(
                        content,
                        toksm,
                    ) && conditionals_decodable(crate::cst::group(toksm, 0, true))
                        && no_inclusion_nodes(crate::cst::group(toksm, 0, true)))
                        ==> crate::events::count_matching(
                        r.events.deep_view(),
                        crate::events::unterminated_pred(),
                    ) == cond_depth(
                        crate::cst::group(toksm, 0, true),
                        crate::cst::group(toksm, 0, true).len() as int,
                    )
            }),
            ({
                // A source whose canonical tokens group to no directive
                // line, with none of its identifiers defined, streams
                // through untouched: the file-boundary marker, then
                // exactly the source's tokens, and no error event of any
                // kind — in particular no unterminated-conditional
                // report.
                let content = fs_at(old(self).fs@, entry@);
                (fs_contains(old(self).fs@, entry@) && old(self).file_ids@.len() < 0xFFFF_FFF0)
                    ==> forall|toksm: Seq<TokM>|
                    #![auto]
                    (crate::lex::tokens_tile(content, toksm) && crate::lex::toks_canonical(
                        content,
                        toksm,
                    ) && all_toks(crate::cst::group(toksm, 0, true))
                        && crate::expand::no_defined_idents(
                        toksm,
                        old(self).current_state.definitions@,
                    )) ==> ((r.events.deep_view()[0] matches EventM::EnterFile { file_id: f0, .. }
                        && r.events.deep_view() == seq![r.events.deep_view()[0]] + token_events(
                        toksm,
                        f0,
                    )) && crate::events::count_matching(
                        r.events.deep_view(),
                        (|e: EventM| e matches EventM::Error { .. }),
                    ) == 0 && crate::events::count_matching(
                        r.events.deep_view(),
                        (|e: EventM| crate::events::is_unterminated_conditional(e)),
                    ) == 0)
            }),
    {
        let mut events: Vec<Event> = Vec::new();
        let parsed = self.parse(entry);
        match parsed {
            Result::Err(_) => {
                let e2 = copy_range(entry, 0, entry.len());
                proof {
                    assert(e2@ =~= entry@);
                }
                push_event(
                    &mut events,
                    Event::IoError {
                        path: e2,
                        span: SourceSpan { file: FileId { id: 0 }, start: 0, end: 0 },
                    },
                );
                proof {
                    assert(events.deep_view() =~= seq![
                        (EventM::IoError {
                            path: entry@,
                            span: (SourceSpan {
                                file: (FileId { id: 0 }),
                                start: 0,
                                end: 0,
                            }),
                        }),
                    ]);
                }
                Expand::new(events)
            },
            Result::Ok(pair) => {
                let (id, ast) = pair;
                let ghost astm = ast@;
                let ghost content = fs_at(old(self).fs@, entry@);
                let e2 = copy_range(entry, 0, entry.len());
                proof {
                    assert(e2@ =~= entry@);
                }
                push_event(&mut events, Event::EnterFile { file_id: id, path: e2 });
                let ghost after_enter = events.deep_view();
                proof {
                    lemma_ast_shaped(fs_at(self.fs@, entry@), ast@);
                }
                let mut stack: Vec<u32> = Vec::new();
                stack.push(id.id);
                proof {
                    assert(stack@ =~= seq![id.id]);
                    assert(self.file_ids.deep_view()[id.id - 1] == entry@);
                    assert(stack_wf(stack@, self.file_ids.deep_view(), self.fs@));
                }
                let d = dirname(entry);
                self.process_file(id, ast, d, &stack, &mut events);
                proof {
                    assert(includes_followed(after_enter, 0));
                    lemma_includes_followed_compose(after_enter, events.deep_view(), 0);
                    {
                        let pred = crate::events::unterminated_pred();
                        assert forall|toksm: Seq<TokM>|
                            #![auto]
                            (crate::lex::tokens_tile(content, toksm)
                                && crate::lex::toks_canonical(content, toksm)
                                && conditionals_decodable(crate::cst::group(toksm, 0, true))
                                && no_inclusion_nodes(crate::cst::group(toksm, 0, true))) implies
                            crate::events::count_matching(events.deep_view(), pred)
                            == cond_depth(
                            crate::cst::group(toksm, 0, true),
                            crate::cst::group(toksm, 0, true).len() as int,
                        ) by {
                            crate::lex::lemma_canonical_unique(
                                content,
                                toksm,
                                elems_flatten(astm.elements),
                            );
                            assert(astm.elements == crate::cst::group(
                                elems_flatten(astm.elements),
                                0,
                                true,
                            ));
                            let head = seq![events.deep_view()[0]];
                            let rest = events.deep_view().subrange(
                                1,
                                events.deep_view().len() as int,
                            );
                            assert(events.deep_view() =~= head + rest);
                            assert forall|k: int| 0 <= k < head.len() implies !pred(
                                #[trigger] head[k],
                            ) by {
                                assert(head[k] == events.deep_view()[0]);
                            }
                            crate::events::lemma_count_matching_zero(head, pred);
                            crate::events::lemma_count_matching_concat(head, rest, pred);
                        }
                    }
                    {
                        assert forall|toksm: Seq<TokM>|
                            #![auto]
                            (crate::lex::tokens_tile(content, toksm)
                                && crate::lex::toks_canonical(content, toksm) && all_toks(
                                crate::cst::group(toksm, 0, true),
                            ) && crate::expand::no_defined_idents(
                                toksm,
                                old(self).current_state.definitions@,
                            )) implies ((events.deep_view()[0] matches EventM::EnterFile {
                            file_id: f0,
                            ..
                        } && events.deep_view() == seq![events.deep_view()[0]] + token_events(
                            toksm,
                            f0,
                        )) && crate::events::count_matching(
                            events.deep_view(),
                            (|e: EventM| e matches EventM::Error { .. }),
                        ) == 0 && crate::events::count_matching(
                            events.deep_view(),
                            (|e: EventM| crate::events::is_unterminated_conditional(e)),
                        ) == 0) by {
                            assert(astm.elements == crate::cst::group(
                                elems_flatten(astm.elements),
                                0,
                                true,
                            ));
                            crate::lex::lemma_canonical_unique(
                                content,
                                toksm,
                                elems_flatten(astm.elements),
                            );
                            assert(events.deep_view() == after_enter + token_events(
                                elems_flatten(astm.elements),
                                id,
                            ));
                            assert(events.deep_view() =~= seq![events.deep_view()[0]]
                                + token_events(toksm, id));
                            assert forall|k: int|
                                0 <= k < events.deep_view().len() implies !((
                            #[trigger] events.deep_view()[k]) matches EventM::Error { .. }) by {
                                if k > 0 {
                                    assert(events.deep_view()[k] == token_events(toksm, id)[k
                                        - 1]);
                                }
                            }
                            crate::events::lemma_count_matching_zero(
                                events.deep_view(),
                                (|e: EventM| e matches EventM::Error { .. }),
                            );
                            assert forall|k: int|
                                0 <= k < events.deep_view().len() implies
                                !crate::events::is_unterminated_conditional(
                                #[trigger] events.deep_view()[k],
                            ) by {
                                if k > 0 {
                                    assert(events.deep_view()[k] == token_events(toksm, id)[k
                                        - 1]);
                                }
                            }
                            crate::events::lemma_count_matching_zero(
                                events.deep_view(),
                                (|e: EventM| crate::events::is_unterminated_conditional(e)),
                            );
                        }
                    }
                }
                Expand::new(events)
            },
        }
    }
}

/// The realized event stream of one processing run.
#[derive(Debug)]
pub struct Expand {
    pub events: Vec<Event>,
}

impl Expand {
    pub fn new(events: Vec<Event>) -> (r: Expand)
        ensures
            r.events.deep_view() == events.deep_view(),
    {
        Expand { events }
    }

    /// Hand the events out.
    pub fn into_events(self) -> (r: Vec<Event>)
        ensures
            r.deep_view() == self.events.deep_view(),
    {
        self.events
    }
}

/// Process an in-memory source under a virtual path, against a caller's
/// initial state.
pub fn process_string(source: &str, path: &str, initial_state: ProcessorState) -> (r: Expand)
    requires
        initial_state.wf(),
    ensures
        r.events.deep_view().len() >= 1 && (r.events.deep_view()[0]
            matches EventM::EnterFile { path: p, .. } && p == path@),
        includes_followed(r.events.deep_view(), 0),
        ({
            // A source whose canonical tokens group to no directive line,
            // with none of its identifiers defined in the caller's initial
            // state, streams through untouched: the file-boundary marker,
            // then exactly the source's tokens, and no error event of any
            // kind.
            forall|toksm: Seq<TokM>|
                #![auto]
                (crate::lex::tokens_tile(source@, toksm) && crate::lex::toks_canonical(
                    source@,
                    toksm,
                ) && all_toks(crate::cst::group(toksm, 0, true))
                    && crate::expand::no_defined_idents(toksm, initial_state.definitions@)) ==> ((
            r.events.deep_view()[0] matches EventM::EnterFile { file_id: f0, .. }
                && r.events.deep_view() == seq![r.events.deep_view()[0]] + token_events(
                toksm,
                f0,
            )) && crate::events::count_matching(
                r.events.deep_view(),
                (|e: EventM| e matches EventM::Error { .. }),
            ) == 0 && crate::events::count_matching(
                r.events.deep_view(),
                (|e: EventM| crate::events::is_unterminated_conditional(e)),
            ) == 0)
        }),
{
    let p = chars_of(path);
    let p2 = copy_range(&p, 0, p.len());
    proof {
        assert(p2@ =~= p@);
    }
    let src = chars_of(source);
    let mut fs = VirtualFs::new();
    fs.add_file(p2, src);
    let mut processor = Processor::new_with_fs(initial_state, fs);
    proof {
        assert(fs_at(processor.fs@, p@) == source@);
        assert(processor.file_ids@.len() == 0);
    }
    processor.process(&p)
}

} // verus!
