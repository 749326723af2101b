use forge::forgefile::{Forgefile, Instruction, ParseError};

fn parse_ok(content: &str) -> Vec<Instruction> {
    Forgefile::parse(content, ".").expect("parse should succeed").instructions
}

#[test]
fn empty_file_has_no_instructions() {
    let f = Forgefile::parse("", "/ctx").unwrap();
    assert_eq!(f.instructions.len(), 0);
    assert_eq!(f.context_dir, "/ctx");
}

#[test]
fn comments_and_blank_lines_are_ignored() {
    let instrs = parse_ok("\n   \n# a comment\n  # indented comment\nFROM alpine\n");
    assert_eq!(instrs.len(), 1);
    match &instrs[0] {
        Instruction::From { image } => assert_eq!(image, "alpine"),
        other => panic!("unexpected instruction: {:?}", other),
    }
}

#[test]
fn lines_without_a_space_are_ignored() {
    let instrs = parse_ok("RUN\nFROM alpine\n");
    assert_eq!(instrs.len(), 1);
}

#[test]
fn unknown_commands_are_skipped() {
    let instrs = parse_ok("LABEL x=y\nFROM alpine\nMAINTAINER nobody\n");
    assert_eq!(instrs.len(), 1);
}

#[test]
fn command_is_case_insensitive() {
    let instrs = parse_ok("from alpine\nrUn echo hi\n");
    assert_eq!(instrs.len(), 2);
    assert!(matches!(&instrs[0], Instruction::From { image } if image == "alpine"));
    assert!(matches!(&instrs[1], Instruction::Run { command } if command == "echo hi"));
}

#[test]
fn copy_splits_on_whitespace() {
    let instrs = parse_ok("COPY  app.txt   /app.txt\n");
    match &instrs[0] {
        Instruction::Copy { src, dest } => {
            assert_eq!(src, "app.txt");
            assert_eq!(dest, "/app.txt");
        },
        other => panic!("unexpected instruction: {:?}", other),
    }
}

#[test]
fn copy_with_one_token_is_an_error() {
    let r = Forgefile::parse("COPY onlysrc\n", ".");
    assert!(matches!(r, Err(ParseError::CopyArgs)));
}

#[test]
fn env_splits_on_first_equals() {
    let instrs = parse_ok("ENV  FOO=bar=baz\n");
    match &instrs[0] {
        Instruction::Env { key, value } => {
            assert_eq!(key, "FOO");
            assert_eq!(value, "bar=baz");
        },
        other => panic!("unexpected instruction: {:?}", other),
    }
}

#[test]
fn env_without_equals_is_an_error() {
    let r = Forgefile::parse("ENV NOEQ\n", ".");
    assert!(matches!(r, Err(ParseError::EnvFormat)));
}

#[test]
fn entrypoint_parses_a_bracketed_array() {
    let instrs = parse_ok("ENTRYPOINT [\"/bin/cat\", \"/greeting\"]\n");
    match &instrs[0] {
        Instruction::Entrypoint { args } => {
            assert_eq!(args.len(), 2);
            assert_eq!(args[0], "/bin/cat");
            assert_eq!(args[1], "/greeting");
        },
        other => panic!("unexpected instruction: {:?}", other),
    }
}

#[test]
fn entrypoint_discards_empty_pieces() {
    let instrs = parse_ok("ENTRYPOINT [\"/bin/sh\", , \"\"]\n");
    match &instrs[0] {
        Instruction::Entrypoint { args } => {
            assert_eq!(args.len(), 1);
            assert_eq!(args[0], "/bin/sh");
        },
        other => panic!("unexpected instruction: {:?}", other),
    }
}

#[test]
fn entrypoint_empty_array_is_accepted() {
    let instrs = parse_ok("ENTRYPOINT []\n");
    match &instrs[0] {
        Instruction::Entrypoint { args } => assert_eq!(args.len(), 0),
        other => panic!("unexpected instruction: {:?}", other),
    }
}

#[test]
fn entrypoint_without_brackets_is_an_error() {
    let r = Forgefile::parse("ENTRYPOINT /bin/sh\n", ".");
    assert!(matches!(r, Err(ParseError::EntrypointFormat)));
}

#[test]
fn workdir_and_run_keep_their_arguments() {
    let instrs = parse_ok("WORKDIR /app\nRUN echo hello > /greeting\n");
    assert!(matches!(&instrs[0], Instruction::Workdir { path } if path == "/app"));
    assert!(
        matches!(&instrs[1], Instruction::Run { command } if command == "echo hello > /greeting")
    );
}

#[test]
fn full_build_file_parses_in_order() {
    let content = "FROM alpine\nRUN echo hello > /greeting\nENTRYPOINT [\"/bin/cat\", \"/greeting\"]\n";
    let instrs = parse_ok(content);
    assert_eq!(instrs.len(), 3);
    assert!(matches!(&instrs[0], Instruction::From { .. }));
    assert!(matches!(&instrs[1], Instruction::Run { .. }));
    assert!(matches!(&instrs[2], Instruction::Entrypoint { .. }));
}

#[test]
fn parse_error_messages_name_the_rule() {
    assert!(ParseError::CopyArgs.message().contains("COPY"));
    assert!(ParseError::EnvFormat.message().contains("ENV"));
    assert!(ParseError::EntrypointFormat.message().contains("ENTRYPOINT"));
}
