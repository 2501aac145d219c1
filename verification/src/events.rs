//! Directive records, processing errors, and the events a processor emits.

use vstd::prelude::*;

use crate::cst::NodeKind;
use crate::lex::{TokM, Token};
use crate::FileId;

verus! {

/// The profile word of a `#version` directive.
#[derive(Clone, Copy, Debug, PartialEq, Eq, Structural)]
pub enum Profile {
    /// No profile word was given.
    NoProfile,
    Core,
    Compatibility,
    Es,
}

/// A validated `#version` directive: a number and an optional profile.
#[derive(Clone, Copy, Debug, PartialEq, Eq, Structural)]
pub struct Version {
    pub number: u32,
    pub profile: Profile,
}

impl Default for Version {
    /// The version in force before any `#version` directive: 110, no
    /// profile.
    fn default() -> (r: Self)
        ensures
            r.number == 110 && r.profile == Profile::NoProfile,
    {
        Version { number: 110, profile: Profile::NoProfile }
    }
}

/// The behavior word of an `#extension` directive.
#[derive(Clone, Copy, Debug, PartialEq, Eq, Structural)]
pub enum ExtensionBehavior {
    Require,
    Enable,
    Warn,
    Disable,
}

impl ExtensionBehavior {
    /// Whether the behavior turns the extension on.
    pub open spec fn spec_is_active(self) -> bool {
        self != ExtensionBehavior::Disable
    }

    pub fn is_active(&self) -> (r: bool)
        ensures
            r == self.spec_is_active(),
    {
        !matches!(self, ExtensionBehavior::Disable)
    }
}

/// The name named by an `#extension` directive: a specific extension, or the
/// literal `all`.
#[derive(Debug)]
pub enum ExtensionName {
    All,
    Named { name: Vec<char> },
}

/// The model of an extension name.
#[verifier::ext_equal]
pub ghost enum ExtensionNameM {
    All,
    Named { name: Seq<char> },
}

impl View for ExtensionName {
    type V = ExtensionNameM;

    open spec fn view(&self) -> ExtensionNameM {
        match self {
            ExtensionName::All => ExtensionNameM::All,
            ExtensionName::Named { name } => ExtensionNameM::Named { name: name@ },
        }
    }
}

impl ExtensionName {
    pub fn dup(&self) -> (r: ExtensionName)
        ensures
            r@ == self@,
    {
        match self {
            ExtensionName::All => ExtensionName::All,
            ExtensionName::Named { name } => ExtensionName::Named {
                name: crate::lex::copy_range(name, 0, name.len()),
            },
        }
    }
}

/// A validated `#extension` directive.
#[derive(Debug)]
pub struct Extension {
    pub name: ExtensionName,
    pub behavior: ExtensionBehavior,
}

/// The model of an `#extension` record.
#[verifier::ext_equal]
pub ghost struct ExtensionM {
    pub name: ExtensionNameM,
    pub behavior: ExtensionBehavior,
}

impl View for Extension {
    type V = ExtensionM;

    open spec fn view(&self) -> ExtensionM {
        ExtensionM { name: self.name@, behavior: self.behavior }
    }
}

impl DeepView for Extension {
    type V = ExtensionM;

    open spec fn deep_view(&self) -> ExtensionM {
        self.view()
    }
}

impl Extension {
    pub fn dup(&self) -> (r: Extension)
        ensures
            r@ == self@,
    {
        Extension { name: self.name.dup(), behavior: self.behavior }
    }
}

/// A validated `#define` directive: object-like when `params` is `None`,
/// function-like otherwise. The replacement list keeps its source tokens.
#[derive(Debug)]
pub struct Define {
    pub name: Vec<char>,
    pub params: Option<Vec<Vec<char>>>,
    pub body: Vec<Token>,
    pub protected: bool,
}

/// The model of a `#define` record.
#[verifier::ext_equal]
pub ghost struct DefineM {
    pub name: Seq<char>,
    pub params: Option<Seq<Seq<char>>>,
    pub body: Seq<TokM>,
    pub protected: bool,
}

impl View for Define {
    type V = DefineM;

    open spec fn view(&self) -> DefineM {
        DefineM {
            name: self.name@,
            params: match self.params {
                Option::Some(ps) => Option::Some(ps.deep_view()),
                Option::None => Option::None,
            },
            body: self.body.deep_view(),
            protected: self.protected,
        }
    }
}

impl DeepView for Define {
    type V = DefineM;

    open spec fn deep_view(&self) -> DefineM {
        self.view()
    }
}

impl Define {
    pub fn dup(&self) -> (r: Define)
        ensures
            r@ == self@,
    {
        let params: Option<Vec<Vec<char>>> = match &self.params {
            Option::Some(ps) => {
                let mut out: Vec<Vec<char>> = Vec::new();
                let mut i: usize = 0;
                while i < ps.len()
                    invariant
                        i <= ps@.len(),
                        out.deep_view() == ps.deep_view().subrange(0, i as int),
                    decreases ps@.len() - i,
                {
                    let ghost prev = out.deep_view();
                    let p = crate::lex::copy_range(&ps[i], 0, ps[i].len());
                    proof {
                        assert(p@ =~= ps@[i as int]@);
                    }
                    let ghost pm = p.deep_view();
                    out.push(p);
                    i += 1;
                    proof {
                        assert(out.deep_view() =~= prev.push(pm));
                        assert(pm == ps@[i - 1].deep_view());
                        assert(out.deep_view() =~= ps.deep_view().subrange(0, i as int));
                    }
                }
                proof {
                    assert(out.deep_view() =~= ps.deep_view());
                }
                Option::Some(out)
            },
            Option::None => Option::None,
        };
        let mut body: Vec<Token> = Vec::new();
        let mut i: usize = 0;
        while i < self.body.len()
            invariant
                i <= self.body@.len(),
                body.deep_view() == self.body.deep_view().subrange(0, i as int),
            decreases self.body@.len() - i,
        {
            let ghost prev = body.deep_view();
            let t = self.body[i].dup();
            let ghost tm = t@;
            body.push(t);
            i += 1;
            proof {
                assert(body.deep_view() =~= prev.push(tm));
                assert(body.deep_view() =~= self.body.deep_view().subrange(0, i as int));
            }
        }
        proof {
            assert(body.deep_view() =~= self.body.deep_view());
        }
        let r = Define {
            name: crate::lex::copy_range(&self.name, 0, self.name.len()),
            params,
            body,
            protected: self.protected,
        };
        assert(r@ =~= self@);
        r
    }
}

/// A directive event's payload.
#[derive(Debug)]
pub enum DirectiveKind {
    Version { version: Version },
    Extension { extension: Extension },
    Define { define: Define },
    IfDef { ident: Vec<char> },
    IfNDef { ident: Vec<char> },
    Else,
    EndIf,
    Undef { ident: Vec<char> },
    Error { message: Vec<char> },
    Include { path: Vec<char>, quoted: bool },
    Line { line: u32, source_number: Option<u32> },
}

/// The model of a directive event's payload.
#[verifier::ext_equal]
pub ghost enum DirectiveKindM {
    Version { version: Version },
    Extension { extension: ExtensionM },
    Define { define: DefineM },
    IfDef { ident: Seq<char> },
    IfNDef { ident: Seq<char> },
    Else,
    EndIf,
    Undef { ident: Seq<char> },
    Error { message: Seq<char> },
    Include { path: Seq<char>, quoted: bool },
    Line { line: u32, source_number: Option<u32> },
}

impl View for DirectiveKind {
    type V = DirectiveKindM;

    open spec fn view(&self) -> DirectiveKindM {
        match self {
            DirectiveKind::Version { version } => DirectiveKindM::Version { version: *version },
            DirectiveKind::Extension { extension } => DirectiveKindM::Extension {
                extension: extension@,
            },
            DirectiveKind::Define { define } => DirectiveKindM::Define { define: define@ },
            DirectiveKind::IfDef { ident } => DirectiveKindM::IfDef { ident: ident@ },
            DirectiveKind::IfNDef { ident } => DirectiveKindM::IfNDef { ident: ident@ },
            DirectiveKind::Else => DirectiveKindM::Else,
            DirectiveKind::EndIf => DirectiveKindM::EndIf,
            DirectiveKind::Undef { ident } => DirectiveKindM::Undef { ident: ident@ },
            DirectiveKind::Error { message } => DirectiveKindM::Error { message: message@ },
            DirectiveKind::Include { path, quoted } => DirectiveKindM::Include {
                path: path@,
                quoted: *quoted,
            },
            DirectiveKind::Line { line, source_number } => DirectiveKindM::Line {
                line: *line,
                source_number: *source_number,
            },
        }
    }
}

/// The kinds of processing errors the preprocessor reports as events.
#[derive(Debug)]
pub enum ProcessingErrorKind {
    /// An attempt to define or undefine a protected identifier.
    ProtectedDefine { ident: Vec<char>, is_undef: bool },
    /// An `#else` with no matching open conditional, or after another
    /// `#else` at the same level.
    ExtraElse,
    /// An `#endif` with no matching open conditional.
    ExtraEndIf,
    /// An open conditional left unclosed at the end of a file.
    UnterminatedConditional,
    /// The diagnostic carried by an `#error` directive.
    ErrorDirective { message: Vec<char> },
    /// A recognized but unimplemented or malformed construct.
    Unhandled { node_kind: NodeKind },
    /// An `#include` while no inclusion extension is enabled.
    IncludeNotEnabled,
    /// An `#include` of a file already on the active inclusion stack.
    IncludeCycle,
    /// An `#include` whose target could not be resolved.
    IncludeNotFound,
    MalformedVersion,
    UnknownProfile,
    MalformedExtension,
    MalformedDefine,
    TrailingTokens,
    DuplicateParameter { ident: Vec<char> },
    /// A function-like macro call whose `)` never comes.
    UnterminatedMacroCall,
    /// A function-like macro call with the wrong number of arguments.
    ArgArityMismatch,
}

/// The model of a processing error.
#[verifier::ext_equal]
pub ghost enum ProcessingErrorKindM {
    ProtectedDefine { ident: Seq<char>, is_undef: bool },
    ExtraElse,
    ExtraEndIf,
    UnterminatedConditional,
    ErrorDirective { message: Seq<char> },
    Unhandled { node_kind: NodeKind },
    IncludeNotEnabled,
    IncludeCycle,
    IncludeNotFound,
    MalformedVersion,
    UnknownProfile,
    MalformedExtension,
    MalformedDefine,
    TrailingTokens,
    DuplicateParameter { ident: Seq<char> },
    UnterminatedMacroCall,
    ArgArityMismatch,
}

impl View for ProcessingErrorKind {
    type V = ProcessingErrorKindM;

    open spec fn view(&self) -> ProcessingErrorKindM {
        match self {
            ProcessingErrorKind::ProtectedDefine { ident, is_undef } =>
                ProcessingErrorKindM::ProtectedDefine { ident: ident@, is_undef: *is_undef },
            ProcessingErrorKind::ExtraElse => ProcessingErrorKindM::ExtraElse,
            ProcessingErrorKind::ExtraEndIf => ProcessingErrorKindM::ExtraEndIf,
            ProcessingErrorKind::UnterminatedConditional =>
                ProcessingErrorKindM::UnterminatedConditional,
            ProcessingErrorKind::ErrorDirective { message } =>
                ProcessingErrorKindM::ErrorDirective { message: message@ },
            ProcessingErrorKind::Unhandled { node_kind } => ProcessingErrorKindM::Unhandled {
                node_kind: *node_kind,
            },
            ProcessingErrorKind::IncludeNotEnabled => ProcessingErrorKindM::IncludeNotEnabled,
            ProcessingErrorKind::IncludeCycle => ProcessingErrorKindM::IncludeCycle,
            ProcessingErrorKind::IncludeNotFound => ProcessingErrorKindM::IncludeNotFound,
            ProcessingErrorKind::MalformedVersion => ProcessingErrorKindM::MalformedVersion,
            ProcessingErrorKind::UnknownProfile => ProcessingErrorKindM::UnknownProfile,
            ProcessingErrorKind::MalformedExtension => ProcessingErrorKindM::MalformedExtension,
            ProcessingErrorKind::MalformedDefine => ProcessingErrorKindM::MalformedDefine,
            ProcessingErrorKind::TrailingTokens => ProcessingErrorKindM::TrailingTokens,
            ProcessingErrorKind::DuplicateParameter { ident } =>
                ProcessingErrorKindM::DuplicateParameter { ident: ident@ },
            ProcessingErrorKind::UnterminatedMacroCall =>
                ProcessingErrorKindM::UnterminatedMacroCall,
            ProcessingErrorKind::ArgArityMismatch => ProcessingErrorKindM::ArgArityMismatch,
        }
    }
}

/// A source range attributed to a file of this run.
#[derive(Clone, Copy, Debug, PartialEq, Eq, Structural)]
pub struct SourceSpan {
    pub file: FileId,
    pub start: usize,
    pub end: usize,
}

/// One event of the output stream.
#[derive(Debug)]
pub enum Event {
    /// The processor starts reading a file.
    EnterFile { file_id: FileId, path: Vec<char> },
    /// An expanded terminal token.
    Token { token: Token, file: FileId },
    /// A directive was recognized and decoded.
    Directive { kind: DirectiveKind, span: SourceSpan },
    /// A processing error.
    Error { kind: ProcessingErrorKind, span: SourceSpan },
    /// A file could not be read.
    IoError { path: Vec<char>, span: SourceSpan },
}

/// The model of an event.
#[verifier::ext_equal]
pub ghost enum EventM {
    EnterFile { file_id: FileId, path: Seq<char> },
    Token { token: TokM, file: FileId },
    Directive { kind: DirectiveKindM, span: SourceSpan },
    Error { kind: ProcessingErrorKindM, span: SourceSpan },
    IoError { path: Seq<char>, span: SourceSpan },
}

impl View for Event {
    type V = EventM;

    open spec fn view(&self) -> EventM {
        match self {
            Event::EnterFile { file_id, path } => EventM::EnterFile {
                file_id: *file_id,
                path: path@,
            },
            Event::Token { token, file } => EventM::Token { token: token@, file: *file },
            Event::Directive { kind, span } => EventM::Directive { kind: kind@, span: *span },
            Event::Error { kind, span } => EventM::Error { kind: kind@, span: *span },
            Event::IoError { path, span } => EventM::IoError { path: path@, span: *span },
        }
    }
}

impl DeepView for Event {
    type V = EventM;

    open spec fn deep_view(&self) -> EventM {
        self.view()
    }
}

/// Whether an event is the report of an unclosed conditional.
pub open spec fn is_unterminated_conditional(e: EventM) -> bool {
    matches!(e, EventM::Error { kind: ProcessingErrorKindM::UnterminatedConditional, .. })
}

/// How many events of a sequence satisfy a condition.
pub open spec fn count_matching(es: Seq<EventM>, pred: spec_fn(EventM) -> bool) -> int
    decreases es.len(),
{
    if es.len() == 0 {
        0
    } else {
        count_matching(es.drop_last(), pred) + if pred(es.last()) {
            1int
        } else {
            0int
        }
    }
}

/// The unterminated-conditional condition, as one shared value.
pub open spec fn unterminated_pred() -> spec_fn(EventM) -> bool {
    |e: EventM| is_unterminated_conditional(e)
}

/// Counting distributes over concatenation.
pub proof fn lemma_count_matching_concat(a: Seq<EventM>, b: Seq<EventM>, pred: spec_fn(EventM) -> bool)
    ensures
        count_matching(a + b, pred) == count_matching(a, pred) + count_matching(b, pred),
    decreases b.len(),
{
    if b.len() == 0 {
        assert(a + b =~= a);
    } else {
        lemma_count_matching_concat(a, b.drop_last(), pred);
        assert((a + b).drop_last() =~= a + b.drop_last());
        assert((a + b).last() == b.last());
    }
}

/// A sequence all of whose events satisfy the condition counts its length.
pub proof fn lemma_count_matching_all(es: Seq<EventM>, pred: spec_fn(EventM) -> bool)
    requires
        forall|i: int| 0 <= i < es.len() ==> pred(#[trigger] es[i]),
    ensures
        count_matching(es, pred) == es.len(),
    decreases es.len(),
{
    if es.len() > 0 {
        lemma_count_matching_all(es.drop_last(), pred);
    }
}

/// A sequence none of whose events satisfies the condition counts zero.
pub proof fn lemma_count_matching_zero(es: Seq<EventM>, pred: spec_fn(EventM) -> bool)
    requires
        forall|i: int| 0 <= i < es.len() ==> !pred(#[trigger] es[i]),
    ensures
        count_matching(es, pred) == 0,
    decreases es.len(),
{
    if es.len() > 0 {
        lemma_count_matching_zero(es.drop_last(), pred);
    }
}

} // verus!
