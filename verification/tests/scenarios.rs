//! End-to-end scenarios through `process_string` and `Processor`.

use glsl_pp::events::{DirectiveKind, Event, ProcessingErrorKind, Profile};
use glsl_pp::lex::chars_of;
use glsl_pp::lex::TokenKind;
use glsl_pp::processor::{process_string, Processor, ProcessorState, VirtualFs};

fn text(v: &[char]) -> String {
    v.iter().collect()
}

fn run(source: &str) -> Vec<Event> {
    process_string(source, "main.glsl", ProcessorState::default()).into_events()
}

/// The token texts of a stream, whitespace and line feeds included.
fn token_texts(events: &[Event]) -> Vec<String> {
    let mut out = Vec::new();
    for e in events {
        if let Event::Token { token, .. } = e {
            out.push(text(&token.text));
        }
    }
    out
}

/// The token texts of a stream, blanks and line feeds dropped.
fn significant_token_texts(events: &[Event]) -> Vec<String> {
    let mut out = Vec::new();
    for e in events {
        if let Event::Token { token, .. } = e {
            if !matches!(
                token.kind,
                TokenKind::Whitespace | TokenKind::Newline | TokenKind::Comment
            ) {
                out.push(text(&token.text));
            }
        }
    }
    out
}

#[test]
fn define_then_use_expands() {
    let events = run("#define X 42\nX");
    assert!(matches!(&events[0], Event::EnterFile { .. }));
    match &events[1] {
        Event::Directive { kind: DirectiveKind::Define { define }, .. } => {
            assert_eq!(text(&define.name), "X");
            assert!(define.params.is_none());
            assert_eq!(define.body.len(), 1);
            assert_eq!(text(&define.body[0].text), "42");
        }
        other => panic!("expected a define directive, got {:?}", other),
    }
    assert_eq!(significant_token_texts(&events), vec!["42"]);
    assert_eq!(events.len(), 3);
}

#[test]
fn define_gl_prefixed_is_protected() {
    let events = run("#define GL_X 1");
    assert!(matches!(&events[0], Event::EnterFile { .. }));
    assert!(matches!(
        &events[1],
        Event::Directive { kind: DirectiveKind::Define { .. }, .. }
    ));
    match &events[2] {
        Event::Error {
            kind: ProcessingErrorKind::ProtectedDefine { ident, is_undef },
            ..
        } => {
            assert_eq!(text(ident), "GL_X");
            assert!(!is_undef);
        }
        other => panic!("expected a protected-define error, got {:?}", other),
    }
    assert_eq!(events.len(), 3);
}

#[test]
fn ifdef_else_takes_the_else_branch() {
    let events = run("#ifdef A\nX\n#else\nY\n#endif");
    assert_eq!(significant_token_texts(&events), vec!["Y"]);
    let mut saw_ifdef = false;
    let mut saw_else = false;
    let mut saw_endif = false;
    for e in &events {
        match e {
            Event::Directive { kind: DirectiveKind::IfDef { ident }, .. } => {
                assert_eq!(text(ident), "A");
                saw_ifdef = true;
            }
            Event::Directive { kind: DirectiveKind::Else, .. } => saw_else = true,
            Event::Directive { kind: DirectiveKind::EndIf, .. } => saw_endif = true,
            _ => {}
        }
    }
    assert!(saw_ifdef && saw_else && saw_endif);
}

#[test]
fn self_referential_define_is_painted() {
    let events = run("#define A A\nA");
    assert!(matches!(
        &events[1],
        Event::Directive { kind: DirectiveKind::Define { .. }, .. }
    ));
    assert_eq!(significant_token_texts(&events), vec!["A"]);
}

#[test]
fn stray_else_is_reported() {
    let events = run("#else");
    assert!(events
        .iter()
        .any(|e| matches!(e, Event::Error { kind: ProcessingErrorKind::ExtraElse, .. })));
}

#[test]
fn include_descends_into_the_child_file() {
    let mut fs = VirtualFs::new();
    fs.add_file(
        chars_of("main.glsl"),
        chars_of("#extension GL_GOOGLE_include_directive : enable\n#include \"sub.glsl\"\n"),
    );
    fs.add_file(chars_of("sub.glsl"), chars_of("#define Q 1\nQ"));
    let mut processor = Processor::new_with_fs(ProcessorState::default(), fs);
    let events = processor.process(&chars_of("main.glsl")).into_events();

    let mut order = Vec::new();
    for e in &events {
        match e {
            Event::EnterFile { path, .. } => order.push(format!("enter {}", text(path))),
            Event::Directive { kind: DirectiveKind::Extension { .. }, .. } => {
                order.push("extension".to_string())
            }
            Event::Directive { kind: DirectiveKind::Include { path, quoted }, .. } => {
                assert!(*quoted);
                order.push(format!("include {}", text(path)))
            }
            Event::Directive { kind: DirectiveKind::Define { .. }, .. } => {
                order.push("define".to_string())
            }
            Event::Token { token, .. }
                if !matches!(
                    token.kind,
                    TokenKind::Whitespace | TokenKind::Newline | TokenKind::Comment
                ) =>
            {
                order.push(format!("token {}", text(&token.text)))
            }
            _ => {}
        }
    }
    assert_eq!(
        order,
        vec![
            "enter main.glsl",
            "extension",
            "include sub.glsl",
            "enter sub.glsl",
            "define",
            "token 1",
        ]
    );
}

#[test]
fn version_directive_is_decoded() {
    let events = run("#version 450 core\n");
    match &events[1] {
        Event::Directive { kind: DirectiveKind::Version { version }, .. } => {
            assert_eq!(version.number, 450);
            assert_eq!(version.profile, Profile::Core);
        }
        other => panic!("expected a version directive, got {:?}", other),
    }
}

#[test]
fn tokens_outside_directives_round_trip() {
    let source = "a b // note\nvec3 q; /* block */ 1.5x";
    let events = run(source);
    let rebuilt: String = token_texts(&events).concat();
    assert_eq!(rebuilt, source);
}

#[test]
fn processing_twice_gives_identical_events() {
    let mut fs = VirtualFs::new();
    fs.add_file(
        chars_of("main.glsl"),
        chars_of("#define X 7\n#ifdef X\nX\n#endif\n#undef X\nX\n"),
    );
    let mut processor = Processor::new_with_fs(ProcessorState::default(), fs);
    let first = processor.process(&chars_of("main.glsl")).into_events();
    processor.set_current_state(ProcessorState::default());
    let second = processor.process(&chars_of("main.glsl")).into_events();
    assert_eq!(format!("{:?}", first), format!("{:?}", second));
}

#[test]
fn unterminated_conditional_reported_once_per_frame() {
    let events = run("#ifdef A\n#ifdef B\n");
    let n = events
        .iter()
        .filter(|e| {
            matches!(
                e,
                Event::Error { kind: ProcessingErrorKind::UnterminatedConditional, .. }
            )
        })
        .count();
    assert_eq!(n, 2);
}

#[test]
fn balanced_conditionals_leave_nothing_open() {
    let events = run("#ifdef A\n#ifdef B\n#endif\n#else\n#endif\nz");
    assert!(!events.iter().any(|e| {
        matches!(
            e,
            Event::Error { kind: ProcessingErrorKind::UnterminatedConditional, .. }
        )
    }));
    assert_eq!(significant_token_texts(&events), vec!["z"]);
}
