use rupl::command::{Command, Handler};
use rupl::context::FnContext;
use rupl::error::ReplError;
use rupl::parameters::{Parameter, Parameters};
use rupl::{Key, Repl, Step};

struct Greet;

impl Handler for Greet {
    type Ctx = u32;

    fn run(&self, args: &Parameters, ctx: &mut u32) -> Result<Option<String>, ReplError> {
        *ctx += 1;
        let name: String = args.get("name").map_err(ReplError::ArgError)?;
        Ok(Some(format!("Hello, {}", name)))
    }
}

struct Silent;

impl Handler for Silent {
    type Ctx = u32;

    fn run(&self, _args: &Parameters, ctx: &mut u32) -> Result<Option<String>, ReplError> {
        *ctx += 1;
        Ok(None)
    }
}

fn greet_repl() -> Repl<Greet> {
    let mut greet = Command::new("greet".to_string(), Greet);
    greet.with_arg("name".to_string(), false).unwrap();
    Repl::<Greet>::builder(0u32)
        .with_prompt(">>")
        .with_command(greet)
        .build()
}

fn output_of(step: Step) -> Vec<u8> {
    match step {
        Step::Output(b) => b,
        _ => panic!("expected output"),
    }
}

fn type_line(repl: &mut Repl<Greet>, line: &str) -> Vec<u8> {
    for c in line.chars() {
        output_of(repl.handle_key(Key::Char(c)));
    }
    output_of(repl.handle_key(Key::Char('\n')))
}

#[test]
fn enter_on_empty_buffer_emits_one_newline_and_no_dispatch() {
    let mut repl = greet_repl();
    let bytes = output_of(repl.handle_key(Key::Char('\n')));
    assert_eq!(bytes, vec![13, 10]);
    assert_eq!(repl.state, 0);
    assert!(repl.buffer.is_empty());
}

#[test]
fn character_key_redraws_input_line() {
    let mut repl = greet_repl();
    let bytes = output_of(repl.handle_key(Key::Char('a')));

    // erase line, carriage return, prompt, content
    let mut expected = vec![27, 91, 50, 75, 13];
    expected.extend_from_slice(b">> ");
    expected.extend_from_slice(b"a");
    assert_eq!(bytes, expected);
    assert_eq!(repl.buffer.get_pos(), 1);
}

#[test]
fn mid_line_insert_repositions_cursor() {
    let mut repl = greet_repl();
    output_of(repl.handle_key(Key::Char('a')));
    output_of(repl.handle_key(Key::Char('b')));
    output_of(repl.handle_key(Key::Left));
    let bytes = output_of(repl.handle_key(Key::Char('x')));

    // "axb" with the cursor one short of the end: redraw then step left by 1
    let mut expected = vec![27, 91, 50, 75, 13];
    expected.extend_from_slice(b">> axb");
    expected.extend_from_slice(&[27, 91, 49, 68]);
    assert_eq!(bytes, expected);
    assert_eq!(repl.buffer.get_pos(), 2);
}

#[test]
fn cursor_repositioning_writes_the_column_count() {
    let mut repl = greet_repl();
    for c in "abcdefghijkl".chars() {
        output_of(repl.handle_key(Key::Char(c)));
    }
    for _ in 0..12 {
        output_of(repl.handle_key(Key::Left));
    }
    let bytes = output_of(repl.handle_key(Key::Char('x')));

    // thirteen characters with twelve to the cursor's right: step left by 12
    let mut expected = vec![27, 91, 50, 75, 13];
    expected.extend_from_slice(b">> xabcdefghijkl");
    expected.extend_from_slice(&[27, 91, 49, 50, 68]);
    assert_eq!(bytes, expected);
}

#[test]
fn arrow_keys_move_cursor_and_emit_escapes() {
    let mut repl = greet_repl();
    output_of(repl.handle_key(Key::Char('a')));

    let left = output_of(repl.handle_key(Key::Left));
    assert_eq!(left, vec![27, 91, 49, 68]);

    let left_again = output_of(repl.handle_key(Key::Left));
    assert_eq!(left_again, Vec::<u8>::new());

    let right = output_of(repl.handle_key(Key::Right));
    assert_eq!(right, vec![27, 91, 49, 67]);

    let right_again = output_of(repl.handle_key(Key::Right));
    assert_eq!(right_again, Vec::<u8>::new());
}

#[test]
fn backspace_removes_before_cursor() {
    let mut repl = greet_repl();
    output_of(repl.handle_key(Key::Char('a')));
    output_of(repl.handle_key(Key::Char('b')));

    let bytes = output_of(repl.handle_key(Key::Backspace));
    let mut expected = vec![27, 91, 50, 75, 13];
    expected.extend_from_slice(b">> a");
    assert_eq!(bytes, expected);

    output_of(repl.handle_key(Key::Backspace));
    let at_start = output_of(repl.handle_key(Key::Backspace));
    assert_eq!(at_start, Vec::<u8>::new());
    assert!(repl.buffer.is_empty());
}

#[test]
fn dispatch_renders_handler_output() {
    let mut repl = greet_repl();
    let bytes = type_line(&mut repl, "greet --name Foo");

    let mut expected = vec![13, 10];
    expected.extend_from_slice(b"Hello, Foo");
    expected.extend_from_slice(&[13, 10]);
    assert_eq!(bytes, expected);
    assert_eq!(repl.state, 1);
    assert!(repl.buffer.is_empty());
}

#[test]
fn dispatch_unknown_command_is_recoverable() {
    let mut repl = greet_repl();
    let bytes = type_line(&mut repl, "bogus");

    let mut expected = vec![13, 10];
    expected.extend_from_slice(b"Unknown command");
    expected.extend_from_slice(&[13, 10]);
    assert_eq!(bytes, expected);
    assert_eq!(repl.state, 0);

    // the loop goes on: the next line still dispatches
    let bytes = type_line(&mut repl, "greet --name Foo");
    assert_eq!(repl.state, 1);
    assert!(!bytes.is_empty());
}

#[test]
fn dispatch_binding_error_is_rendered() {
    let mut repl = greet_repl();
    let bytes = type_line(&mut repl, "greet");

    let mut expected = vec![13, 10];
    expected.extend_from_slice(b"Invalid parameter count");
    expected.extend_from_slice(&[13, 10]);
    assert_eq!(bytes, expected);
    assert_eq!(repl.state, 0);
}

#[test]
fn whitespace_line_is_skipped_when_configured() {
    let mut repl = greet_repl();
    output_of(repl.handle_key(Key::Char(' ')));
    output_of(repl.handle_key(Key::Char(' ')));
    let bytes = output_of(repl.handle_key(Key::Char('\n')));
    assert_eq!(bytes, vec![13, 10]);
    assert_eq!(repl.state, 0);
    assert!(repl.buffer.is_empty());
}

#[test]
fn interrupt_and_end_of_input_exit() {
    let mut repl = greet_repl();
    assert!(matches!(repl.handle_key(Key::Ctrl('c')), Step::Exit));
    assert!(matches!(repl.handle_key(Key::Ctrl('d')), Step::Exit));
    assert!(matches!(repl.handle_key(Key::Ctrl('x')), Step::Output(_)));
}

#[test]
fn help_builtin_lists_top_level_commands() {
    let mut status = Command::new("status".to_string(), Silent);
    status.with_arg("verbose".to_string(), true).unwrap();
    let mut repl = Repl::<Silent>::builder(0u32)
        .with_command(status)
        .with_command(Command::new("alpha".to_string(), Silent))
        .build();

    for c in "help".chars() {
        output_of_silent(repl.handle_key(Key::Char(c)));
    }
    let bytes = output_of_silent(repl.handle_key(Key::Char('\n')));
    let mut expected = vec![13, 10];
    expected.extend_from_slice(b"alpha status");
    expected.extend_from_slice(&[13, 10]);
    assert_eq!(bytes, expected);
    assert_eq!(repl.state, 0);
}

#[test]
fn version_builtin_prints_version() {
    let mut repl = Repl::<Silent>::builder(0u32)
        .with_version("1.2.3")
        .with_output_prompt("#")
        .build();

    for c in "version".chars() {
        output_of(repl.handle_key(Key::Char(c)));
    }
    let bytes = output_of_silent(repl.handle_key(Key::Char('\n')));
    let mut expected = vec![13, 10];
    expected.extend_from_slice(b"# 1.2.3");
    expected.extend_from_slice(&[13, 10]);
    assert_eq!(bytes, expected);
}

fn output_of_silent(step: Step) -> Vec<u8> {
    match step {
        Step::Output(b) => b,
        _ => panic!("expected output"),
    }
}

#[test]
fn silent_handler_emits_only_newline() {
    let mut repl = Repl::<Silent>::builder(0u32)
        .with_command(Command::new("quiet".to_string(), Silent))
        .build();

    for c in "quiet".chars() {
        output_of_silent(repl.handle_key(Key::Char(c)));
    }
    let bytes = output_of_silent(repl.handle_key(Key::Char('\n')));
    assert_eq!(bytes, vec![13, 10]);
    assert_eq!(repl.state, 1);
}

#[test]
fn strict_mode_makes_unknown_command_fatal() {
    let mut repl = Repl::<Silent>::builder(0u32)
        .with_strict(true)
        .with_command(Command::new("known".to_string(), Silent))
        .build();

    for c in "nope".chars() {
        output_of_silent(repl.handle_key(Key::Char(c)));
    }
    match repl.handle_key(Key::Char('\n')) {
        Step::Fatal(ReplError::NoSuchCommandError(s)) => assert_eq!(s, "nope"),
        _ => panic!("expected a fatal unknown-command error"),
    }
    assert_eq!(repl.state, 0);

    // builtins still answer in strict mode
    for c in "help".chars() {
        output_of_silent(repl.handle_key(Key::Char(c)));
    }
    assert!(matches!(repl.handle_key(Key::Char('\n')), Step::Output(_)));
}

#[test]
fn prompt_trimming_removes_all_trailing_whitespace() {
    let repl = Repl::<Silent>::builder(0u32)
        .with_prompt("#\t")
        .with_output_prompt("$ \t\n")
        .build();
    assert_eq!(repl.prompt, "# ");
    assert_eq!(repl.output_prompt, "$ ");
}

#[test]
fn builder_sets_configuration() {
    let repl = Repl::<Silent>::builder(7u32)
        .with_prompt("$  ")
        .with_output_prompt("out")
        .with_welcome_message("hi")
        .with_exit_message("bye")
        .with_version("9.9")
        .ignore_empty_line(false)
        .with_builtins(false)
        .build();

    assert_eq!(repl.prompt, "$ ");
    assert_eq!(repl.output_prompt, "out ");
    assert_eq!(repl.welcome_message, "hi");
    assert_eq!(repl.exit_message, "bye");
    assert_eq!(repl.version, "9.9");
    assert_eq!(repl.ignore_empty_line, false);
    assert_eq!(repl.use_builtins, false);
    assert_eq!(repl.state, 7);
    assert!(repl.buffer.is_empty());
}

#[test]
fn list_commands_alphabetically() {
    let repl = Repl::<Silent>::builder(0u32)
        .with_command(Command::new("bravo".to_string(), Silent))
        .with_command(Command::new("alpha".to_string(), Silent))
        .with_command(Command::new("charlie".to_string(), Silent))
        .with_command(Command::new("bravo".to_string(), Silent))
        .build();

    let names = repl.list_commands();
    assert_eq!(names.len(), 3);
    assert_eq!(names[0].as_str(), "alpha");
    assert_eq!(names[1].as_str(), "bravo");
    assert_eq!(names[2].as_str(), "charlie");
}

#[test]
fn fn_context_carries_parameters_and_context() {
    let params = Parameters::new("a", &vec![Parameter::new("x".to_string())]).unwrap();
    let mut fc = FnContext::new(params, 5u32);

    let x: String = fc.args().get("x").unwrap();
    assert_eq!(x, "a");
    assert_eq!(*fc.ctx(), 5);

    *fc.ctx_mut() = 9;
    assert_eq!(*fc.ctx(), 9);
}

#[test]
fn error_messages_name_their_cause() {
    let e = ReplError::NoSuchCommandError("nope".to_string());
    assert_eq!(e.message(), "No such command: nope");

    let e = ReplError::ArgError(rupl::parameters::ParameterError::ParseError);
    assert_eq!(e.message(), "Parameter error: Parse error");

    let e = ReplError::BufferError(rupl::buffer::BufferError::InvalidStartIndex);
    assert_eq!(
        e.message(),
        "Buffer error: Invalid start index, must be <= buf len"
    );

    let e = ReplError::ParserError(rupl::ParserError::EmptyInput);
    assert_eq!(e.message(), "Parser error: Empty input");
}
