//! Unit-level checks of the tokenizer, the decoders, the definition
//! table, the mask stack, the expansion engine, and the registry.

use glsl_pp::cst::{build, Element, NodeKind};
use glsl_pp::defs::{Definition, DefinitionTable, UndefOutcome};
use glsl_pp::directive::parse_number;
use glsl_pp::events::{Define, DirectiveKind, Event, ProcessingErrorKind};
use glsl_pp::expand::u32_to_dec;
use glsl_pp::exts::registry_contains;
use glsl_pp::lex::{chars_of, tokenize, TokenKind};
use glsl_pp::mask::MaskStack;
use glsl_pp::parse::{LangParser, ParseOptions};
use glsl_pp::events::SourceSpan;
use glsl_pp::expand::MacroCtx;
use glsl_pp::processor::{
    emit_token_run, process_string, IncludeMode, Processor, ProcessorState, VirtualFs,
};

fn text(v: &[char]) -> String {
    v.iter().collect()
}

fn run(source: &str) -> Vec<Event> {
    process_string(source, "main.glsl", ProcessorState::default()).into_events()
}

fn significant(events: &[Event]) -> Vec<String> {
    let mut out = Vec::new();
    for e in events {
        if let Event::Token { token, .. } = e {
            if !matches!(
                token.kind,
                TokenKind::Whitespace | TokenKind::Newline | TokenKind::Comment
            ) {
                out.push(text(&token.text));
            }
        }
    }
    out
}

#[test]
fn tokenizer_tiles_the_input() {
    let src = chars_of("ab 12(,)\n// c\n/* d */+");
    let toks = tokenize(&src);
    let rebuilt: String = toks.iter().map(|t| text(&t.text)).collect();
    assert_eq!(rebuilt, "ab 12(,)\n// c\n/* d */+");
    assert_eq!(toks[0].kind, TokenKind::Ident);
    assert_eq!(toks[1].kind, TokenKind::Whitespace);
    assert_eq!(toks[2].kind, TokenKind::Number);
    assert_eq!(toks[3].kind, TokenKind::Symbol);
    assert_eq!(text(&toks[0].text), "ab");
    assert_eq!(text(&toks[2].text), "12");
}

#[test]
fn builder_recognizes_directive_lines() {
    let src = chars_of("  #define A 1\nb\n");
    let es = build(tokenize(&src));
    match &es[0] {
        Element::Node { kind, toks } => {
            assert_eq!(*kind, NodeKind::Define);
            let joined: String = toks.iter().map(|t| text(&t.text)).collect();
            assert_eq!(joined, "  #define A 1\n");
        }
        other => panic!("expected a directive node, got {:?}", other),
    }
    assert!(matches!(&es[1], Element::Tok { .. }));
}

#[test]
fn number_parsing_is_exact() {
    assert_eq!(parse_number(&chars_of("450")), Some(450));
    assert_eq!(parse_number(&chars_of("0")), Some(0));
    assert_eq!(parse_number(&chars_of("4294967295")), Some(u32::MAX));
    assert_eq!(parse_number(&chars_of("4294967296")), None);
    assert_eq!(parse_number(&chars_of("12a")), None);
}

#[test]
fn number_formatting_inverts_parsing() {
    assert_eq!(text(&u32_to_dec(0)), "0");
    assert_eq!(text(&u32_to_dec(110)), "110");
    assert_eq!(text(&u32_to_dec(4294967295)), "4294967295");
}

#[test]
fn definition_table_replaces_unprotected_entries() {
    let mut table = DefinitionTable::new();
    let d1 = Define {
        name: chars_of("M"),
        params: None,
        body: Vec::new(),
        protected: false,
    };
    assert!(table.define(d1, glsl_pp::FileId::new(1)));
    let d2 = Define {
        name: chars_of("M"),
        params: None,
        body: Vec::new(),
        protected: false,
    };
    assert!(table.define(d2, glsl_pp::FileId::new(1)));
    assert!(table.lookup(&chars_of("M")).is_some());
    assert_eq!(table.undef(&chars_of("M")), UndefOutcome::Removed);
    assert_eq!(table.undef(&chars_of("M")), UndefOutcome::Absent);
    assert_eq!(table.undef(&chars_of("GL_anything")), UndefOutcome::Protected);
}

#[test]
fn definition_table_guards_protected_entries() {
    let mut table = DefinitionTable::new();
    let d = Define {
        name: chars_of("KEEP"),
        params: None,
        body: Vec::new(),
        protected: true,
    };
    assert!(table.define(d, glsl_pp::FileId::new(1)));
    let again = Define {
        name: chars_of("KEEP"),
        params: None,
        body: Vec::new(),
        protected: false,
    };
    assert!(!table.define(again, glsl_pp::FileId::new(1)));
    assert_eq!(table.undef(&chars_of("KEEP")), UndefOutcome::Protected);
    assert!(matches!(
        table.lookup(&chars_of("KEEP")),
        Some(Definition::Regular { .. })
    ));
}

#[test]
fn mask_stack_reports_stray_closers() {
    let mut mask = MaskStack::new();
    assert!(mask.emit());
    assert!(!mask.on_else());
    assert!(!mask.on_endif());
    mask.push_level(false);
    assert!(!mask.emit());
    assert!(mask.on_else());
    assert!(mask.emit());
    assert!(!mask.on_else());
    assert!(mask.on_endif());
    assert!(mask.emit());
    assert_eq!(mask.depth(), 0);
}

#[test]
fn undef_of_builtin_is_protected() {
    let events = run("#undef __LINE__");
    assert!(events.iter().any(|e| matches!(
        e,
        Event::Error {
            kind: ProcessingErrorKind::ProtectedDefine { is_undef: true, .. },
            ..
        }
    )));
}

#[test]
fn undef_removes_a_definition() {
    let events = run("#define B 2\n#undef B\nB");
    assert_eq!(significant(&events), vec!["B"]);
}

#[test]
fn redefinition_of_builtin_is_protected() {
    let events = run("#define __LINE__ 5");
    assert!(events.iter().any(|e| matches!(
        e,
        Event::Error {
            kind: ProcessingErrorKind::ProtectedDefine { is_undef: false, .. },
            ..
        }
    )));
}

#[test]
fn redefinition_of_unprotected_name_wins() {
    let events = run("#define X 1\n#define X 2\nX");
    assert_eq!(significant(&events), vec!["2"]);
}

#[test]
fn ifndef_takes_the_branch_when_undefined() {
    let events = run("#ifndef A\nX\n#endif");
    assert_eq!(significant(&events), vec!["X"]);
}

#[test]
fn stray_endif_is_reported() {
    let events = run("#endif");
    assert!(events
        .iter()
        .any(|e| matches!(e, Event::Error { kind: ProcessingErrorKind::ExtraEndIf, .. })));
}

#[test]
fn second_else_is_extra_even_when_masked() {
    let events = run("#ifdef A\n#else\n#else\n#endif\n");
    let n = events
        .iter()
        .filter(|e| matches!(e, Event::Error { kind: ProcessingErrorKind::ExtraElse, .. }))
        .count();
    assert_eq!(n, 1);
}

#[test]
fn if_directive_masks_its_group() {
    let events = run("#if 1\nX\n#endif\nY");
    assert_eq!(significant(&events), vec!["Y"]);
}

#[test]
fn error_directive_yields_both_events() {
    let events = run("#error things went wrong\n");
    let mut directive_msg = None;
    let mut error_msg = None;
    for e in &events {
        match e {
            Event::Directive { kind: DirectiveKind::Error { message }, .. } => {
                directive_msg = Some(text(message))
            }
            Event::Error {
                kind: ProcessingErrorKind::ErrorDirective { message }, ..
            } => error_msg = Some(text(message)),
            _ => {}
        }
    }
    assert_eq!(directive_msg.as_deref(), Some("things went wrong"));
    assert_eq!(error_msg.as_deref(), Some("things went wrong"));
}

#[test]
fn malformed_version_number() {
    let events = run("#version abc\n");
    assert!(events.iter().any(|e| {
        matches!(e, Event::Error { kind: ProcessingErrorKind::MalformedVersion, .. })
    }));
}

#[test]
fn unknown_profile_word() {
    let events = run("#version 450 metal\n");
    assert!(events.iter().any(|e| {
        matches!(e, Event::Error { kind: ProcessingErrorKind::UnknownProfile, .. })
    }));
}

#[test]
fn malformed_extension() {
    let events = run("#extension foo\n");
    assert!(events.iter().any(|e| {
        matches!(e, Event::Error { kind: ProcessingErrorKind::MalformedExtension, .. })
    }));
}

#[test]
fn trailing_tokens_after_ifdef_ident() {
    let events = run("#ifdef A B\n");
    assert!(events.iter().any(|e| {
        matches!(e, Event::Error { kind: ProcessingErrorKind::TrailingTokens, .. })
    }));
}

#[test]
fn duplicate_macro_parameter() {
    let events = run("#define F(a,a) a\n");
    assert!(events.iter().any(|e| {
        matches!(
            e,
            Event::Error { kind: ProcessingErrorKind::DuplicateParameter { .. }, .. }
        )
    }));
}

#[test]
fn function_like_macro_substitutes_arguments() {
    let events = run("#define ADD(x,y) x+y\nADD(1,2)");
    assert_eq!(significant(&events), vec!["1", "+", "2"]);
}

#[test]
fn function_like_macro_nested_call_parentheses() {
    let events = run("#define FST(x,y) x\nFST((1,2),3)");
    assert_eq!(significant(&events), vec!["(", "1", ",", "2", ")"]);
}

#[test]
fn function_like_macro_without_call_is_verbatim() {
    let events = run("#define F(x) x\nF");
    assert_eq!(significant(&events), vec!["F"]);
}

#[test]
fn unterminated_macro_call() {
    let events = run("#define F(x) x\nF(1");
    assert!(events.iter().any(|e| {
        matches!(
            e,
            Event::Error { kind: ProcessingErrorKind::UnterminatedMacroCall, .. }
        )
    }));
}

#[test]
fn macro_call_arity_mismatch() {
    let events = run("#define F(x) x\nF(1,2)");
    assert!(events.iter().any(|e| {
        matches!(e, Event::Error { kind: ProcessingErrorKind::ArgArityMismatch, .. })
    }));
}

#[test]
fn nested_macros_expand_through_rescan() {
    let events = run("#define ONE 1\n#define TWO ONE+ONE\nTWO");
    assert_eq!(significant(&events), vec!["1", "+", "1"]);
}

#[test]
fn builtin_version_macro_tracks_version() {
    let events = run("__VERSION__");
    assert_eq!(significant(&events), vec!["110"]);
    let events = run("#version 450\n__VERSION__");
    assert_eq!(significant(&events), vec!["450"]);
}

#[test]
fn builtin_file_macro_is_the_file_number() {
    let events = run("__FILE__");
    assert_eq!(significant(&events), vec!["1"]);
}

#[test]
fn builtin_line_macro_counts_lines() {
    let events = run("a\n__LINE__");
    assert_eq!(significant(&events), vec!["a", "2"]);
}

#[test]
fn line_directive_shifts_the_line_macro() {
    let events = run("#line 100\n__LINE__");
    assert_eq!(significant(&events), vec!["100"]);
}

#[test]
fn core_profile_builtin_is_defined() {
    let events = run("GL_core_profile");
    assert_eq!(significant(&events), vec!["1"]);
}

#[test]
fn include_without_extension_is_refused() {
    let events = run("#include \"sub.glsl\"\n");
    assert!(events.iter().any(|e| {
        matches!(
            e,
            Event::Error { kind: ProcessingErrorKind::IncludeNotEnabled, .. }
        )
    }));
}

#[test]
fn include_cycle_is_detected() {
    let mut fs = VirtualFs::new();
    fs.add_file(
        chars_of("a.glsl"),
        chars_of("#extension GL_GOOGLE_include_directive : enable\n#include \"a.glsl\"\n"),
    );
    let mut processor = Processor::new_with_fs(ProcessorState::default(), fs);
    let events = processor.process(&chars_of("a.glsl")).into_events();
    assert!(events
        .iter()
        .any(|e| matches!(e, Event::Error { kind: ProcessingErrorKind::IncludeCycle, .. })));
}

#[test]
fn missing_inclusion_target_is_reported() {
    let events = run("#extension GL_GOOGLE_include_directive : enable\n#include \"gone.glsl\"\n");
    assert!(events.iter().any(|e| {
        matches!(e, Event::Error { kind: ProcessingErrorKind::IncludeNotFound, .. })
    }));
}

#[test]
fn disabling_the_extension_turns_inclusion_off() {
    let source = "#extension GL_GOOGLE_include_directive : enable\n#extension GL_GOOGLE_include_directive : disable\n#include \"sub.glsl\"\n";
    let events = run(source);
    assert!(events.iter().any(|e| {
        matches!(
            e,
            Event::Error { kind: ProcessingErrorKind::IncludeNotEnabled, .. }
        )
    }));
}

#[test]
fn missing_root_file_is_an_io_error() {
    let mut processor = Processor::new(ProcessorState::default());
    let events = processor.process(&chars_of("absent.glsl")).into_events();
    assert_eq!(events.len(), 1);
    assert!(matches!(&events[0], Event::IoError { .. }));
}

#[test]
fn registry_knows_the_inclusion_extensions() {
    assert!(registry_contains(&chars_of("GL_GOOGLE_include_directive")));
    assert!(registry_contains(&chars_of("GL_ARB_shading_language_include")));
    assert!(registry_contains(&chars_of("GL_ARB_compute_shader")));
    assert!(!registry_contains(&chars_of("GL_NOT_a_real_extension")));
}

#[test]
fn include_mode_default_is_disabled() {
    assert_eq!(IncludeMode::default(), IncludeMode::Disabled);
}

struct FixedParser;

impl LangParser for FixedParser {
    fn new() -> Self {
        FixedParser
    }
}

#[test]
fn parse_options_defaults() {
    let opts = ParseOptions::new();
    assert!(!opts.target_vulkan);
    assert_eq!(opts.source_id, 0);
    assert!(!opts.allow_rs_ident);
    assert!(opts.comments.is_none());
    let with = ParseOptions::with_comments();
    assert!(with.comments.is_some());
    let _parser = FixedParser::new();
}

#[test]
fn unknown_directive_is_unhandled() {
    let events = run("#pragma thing\n");
    assert!(events.iter().any(|e| {
        matches!(
            e,
            Event::Error { kind: ProcessingErrorKind::Unhandled { .. }, .. }
        )
    }));
}

#[test]
fn empty_hash_line_is_silent() {
    let events = run("#\nx");
    assert_eq!(significant(&events), vec!["x"]);
    assert!(!events.iter().any(|e| matches!(e, Event::Error { .. })));
}

#[test]
fn arb_extension_also_enables_inclusion() {
    let mut fs = VirtualFs::new();
    fs.add_file(
        chars_of("main.glsl"),
        chars_of("#extension GL_ARB_shading_language_include : require\n#include \"sub.glsl\"\n"),
    );
    fs.add_file(chars_of("sub.glsl"), chars_of("s"));
    let mut processor = Processor::new_with_fs(ProcessorState::default(), fs);
    let events = processor.process(&chars_of("main.glsl")).into_events();
    assert_eq!(significant(&events), vec!["s"]);
}

#[test]
fn angle_bracket_inclusion_uses_the_search_root() {
    let mut fs = VirtualFs::new();
    fs.add_file(
        chars_of("dir/main.glsl"),
        chars_of("#extension GL_GOOGLE_include_directive : enable\n#include <lib.glsl>\n"),
    );
    fs.add_file(chars_of("lib.glsl"), chars_of("g"));
    let mut processor = Processor::new_with_fs(ProcessorState::default(), fs);
    let events = processor.process(&chars_of("dir/main.glsl")).into_events();
    assert_eq!(significant(&events), vec!["g"]);
}

#[test]
fn quoted_inclusion_resolves_against_the_current_directory() {
    let mut fs = VirtualFs::new();
    fs.add_file(
        chars_of("dir/main.glsl"),
        chars_of("#extension GL_GOOGLE_include_directive : enable\n#include \"lib.glsl\"\n"),
    );
    fs.add_file(chars_of("dir/lib.glsl"), chars_of("h"));
    let mut processor = Processor::new_with_fs(ProcessorState::default(), fs);
    let events = processor.process(&chars_of("dir/main.glsl")).into_events();
    assert_eq!(significant(&events), vec!["h"]);
}

#[test]
fn line_directive_with_source_number() {
    let events = run("#line 7 3\n__LINE__");
    let mut seen = false;
    for e in &events {
        if let Event::Directive { kind: DirectiveKind::Line { line, source_number }, .. } = e {
            assert_eq!(*line, 7);
            assert_eq!(*source_number, Some(3));
            seen = true;
        }
    }
    assert!(seen);
    assert_eq!(significant(&events), vec!["7"]);
}

#[test]
fn inclusion_with_trailing_tokens_is_unhandled() {
    let events = run("#extension GL_GOOGLE_include_directive : enable\n#include \"a.glsl\" junk\n");
    assert!(events.iter().any(|e| {
        matches!(
            e,
            Event::Error { kind: ProcessingErrorKind::Unhandled { .. }, .. }
        )
    }));
}

#[test]
fn extension_stack_starts_with_all_disable() {
    let state = ProcessorState::default();
    assert_eq!(state.extension_stack.len(), 1);
    assert_eq!(state.definitions.entries.len(), 4);
}

#[test]
fn registry_listing_is_sound() {
    let names = glsl_pp::exts::registry_names();
    assert_eq!(names.len(), 146);
    for n in &names {
        assert!(registry_contains(n));
    }
}

#[test]
fn masked_run_emits_nothing() {
    let state = ProcessorState::default();
    let mut mask = MaskStack::new();
    mask.push_level(false);
    let run = tokenize(&chars_of("GL_core_profile x"));
    let ctx = MacroCtx {
        file: 1,
        version: 110,
        nl_offsets: Vec::new(),
        line_shift_active: false,
        line_anchor: 0,
        line_declared: 0,
    };
    let fid = glsl_pp::FileId::new(1);
    let span = SourceSpan { file: fid, start: 0, end: 17 };
    let mut out: Vec<Event> = Vec::new();
    emit_token_run(&state, &mask, &run, &ctx, fid, span, &mut out);
    assert!(out.is_empty());
}

#[test]
fn macro_call_error_span_points_at_the_call() {
    let events = run("#define F(x) x\nF(1");
    for e in &events {
        if let Event::Error { kind: ProcessingErrorKind::UnterminatedMacroCall, span } = e {
            assert_eq!(span.start, 15);
            assert_eq!(span.end, 16);
        }
    }
}
