use amoeba_cli::args::Args;
use amoeba_cli::device::{cmd_id, cmd_led, cmd_rgb};
use amoeba_cli::{BoundedString, Cli, Cmd, Error, Interpreter};

const CMD_BUF_SIZE: usize = 1024;
const LINE_BUF_SIZE: usize = 128;

type CmdBuf = BoundedString<CMD_BUF_SIZE>;
type Callback = for<'a> fn(Args<'a>) -> Result<CmdBuf, Error>;
type Command = Cmd<CMD_BUF_SIZE, Callback>;
type Shell<'c> = Cli<'c, Callback, CMD_BUF_SIZE, LINE_BUF_SIZE>;

const PROMPT: &str = "> ";
const TRAILER: &str = "Use 'help <command> to get more details.";

fn cmd_exit(_args: Args<'_>) -> Result<CmdBuf, Error> {
    Err(Error::CmdFailure)
}

fn cmd_echo(mut args: Args<'_>) -> Result<CmdBuf, Error> {
    let mut out = CmdBuf::new();
    while let Some(token) = args.next() {
        out.try_push_str(token)?;
        out.try_push('\n')?;
    }
    Ok(out)
}

fn cmd_wide(_args: Args<'_>) -> Result<CmdBuf, Error> {
    let mut out = CmdBuf::from("short\n")?;
    for _ in 0..LINE_BUF_SIZE {
        out.try_push('x')?;
    }
    out.try_push_str("\nnever shown")?;
    Ok(out)
}

fn command(name: &'static str, descr: &'static str, help: &'static str, callback: Callback) -> Command {
    Cmd { name, descr, help, callback }
}

fn table() -> Vec<Command> {
    vec![
        command(
            "led",
            "led control",
            "Use 'led on' or 'led off' to control the state of the led.",
            cmd_led,
        ),
        command(
            "rgb",
            "RGB led control",
            "rgb <red> <green> <blue>\nUse values from 0 to 255 to specify channel brightness.",
            cmd_rgb,
        ),
        command("id", "set device id", "id <val>\nID have to be a string value.", cmd_id),
        command("exit", "exit CLI", "Yep, no jokes, program will be terminated.", cmd_exit),
        command("echo", "say it again", "echo <words>", cmd_echo),
        command("wide", "one line too long", "wide", cmd_wide),
    ]
}

fn two_entries() -> Vec<Command> {
    vec![
        command("led", "led control", "Use 'led on' or 'led off' to control the state of the led.", cmd_led),
        command("exit", "exit CLI", "Yep, no jokes, program will be terminated.", cmd_exit),
    ]
}

fn run<'c>(cmds: &'c [Command], line: &str) -> (Result<CmdBuf, Error>, Shell<'c>) {
    let cli = Shell::new(cmds);
    (cli.dispatch(line), cli)
}

fn text(outcome: Result<CmdBuf, Error>) -> Result<String, Error> {
    outcome.map(|buf| buf.as_str().to_string())
}

#[test]
fn find_returns_each_registered_command() {
    let cmds = table();
    let cli = Shell::new(&cmds);
    for cmd in cmds.iter() {
        let found = cli.cmd_from_name(cmd.name).unwrap();
        assert!(std::ptr::eq(found, cmd));
    }
}

#[test]
fn find_returns_nothing_for_other_names() {
    let cmds = table();
    let cli = Shell::new(&cmds);
    for name in ["", "le", "ledd", "LED", "Led", " led", "help", "bogus"] {
        assert!(cli.cmd_from_name(name).is_none());
    }
}

#[test]
fn find_returns_the_first_of_two_with_one_name() {
    let cmds = vec![
        command("led", "first", "first help", cmd_led),
        command("led", "second", "second help", cmd_exit),
    ];
    let cli = Shell::new(&cmds);
    assert!(std::ptr::eq(cli.cmd_from_name("led").unwrap(), &cmds[0]));
    assert_eq!(text(cli.dispatch("help led")), Ok("first help".to_string()));
}

#[test]
fn dispatching_an_empty_line_fails_with_empty_cmd() {
    let cmds = table();
    assert_eq!(run(&cmds, "").0, Err(Error::EmptyCmd));
}

#[test]
fn dispatching_a_blank_line_fails_with_empty_cmd() {
    let cmds = table();
    assert_eq!(run(&cmds, "   ").0, Err(Error::EmptyCmd));
    assert_eq!(run(&cmds, " \t\r").0, Err(Error::EmptyCmd));
}

#[test]
fn dispatching_an_unknown_name_fails_with_cmd_not_found() {
    let cmds = table();
    assert_eq!(run(&cmds, "bogus").0, Err(Error::CmdNotFound));
    assert_eq!(run(&cmds, "LED on").0, Err(Error::CmdNotFound));
    assert_eq!(run(&cmds, "le").0, Err(Error::CmdNotFound));
}

#[test]
fn dispatching_hands_the_rest_of_the_tokens_to_the_callback() {
    let cmds = table();
    assert_eq!(text(run(&cmds, "led on").0), Ok("Led is ON now".to_string()));
    assert_eq!(text(run(&cmds, "  led \t off  ").0), Ok("Led is OFF now".to_string()));
    assert_eq!(text(run(&cmds, "rgb 0x10 0b11 255").0), Ok("Ok, R=16, G=3, B=255".to_string()));
    assert_eq!(text(run(&cmds, "id  abc  def").0), Ok("Ok, id='abc'".to_string()));
    assert_eq!(text(run(&cmds, "echo a  bb   ccc").0), Ok("a\nbb\nccc\n".to_string()));
    assert_eq!(text(run(&cmds, "echo").0), Ok(String::new()));
}

#[test]
fn dispatching_returns_the_error_of_the_callback_unchanged() {
    let cmds = table();
    assert_eq!(run(&cmds, "led").0, Err(Error::NotEnoughArgs));
    assert_eq!(run(&cmds, "led maybe").0, Err(Error::InvalidArgType));
    assert_eq!(run(&cmds, "rgb 1 2").0, Err(Error::NotEnoughArgs));
    assert_eq!(run(&cmds, "rgb 1 2 256").0, Err(Error::InvalidArgType));
    assert_eq!(run(&cmds, "exit").0, Err(Error::CmdFailure));
}

#[test]
fn help_renders_a_summary_of_a_two_entry_table() {
    let cmds = two_entries();
    let summary = text(run(&cmds, "help").0).unwrap();
    assert!(summary.contains("  led        led control\n"));
    assert!(summary.contains("  exit       exit CLI\n"));
    assert!(summary.ends_with(TRAILER));
    assert_eq!(
        summary,
        "Available commands:\n  led        led control\n  exit       exit CLI\nUse 'help <command> to get more details."
    );
}

#[test]
fn help_summary_of_an_empty_table_is_header_and_trailer() {
    let cmds: Vec<Command> = Vec::new();
    assert_eq!(
        text(run(&cmds, "help").0),
        Ok("Available commands:\nUse 'help <command> to get more details.".to_string())
    );
}

#[test]
fn help_summary_keeps_names_in_a_column_of_ten() {
    let cmds = vec![
        command("tencharsxx", "exactly ten", "", cmd_exit),
        command("elevenchars", "one more", "", cmd_exit),
        command("", "no name", "", cmd_exit),
        command("\u{e9}t\u{e9}", "three letters", "", cmd_exit),
    ];
    assert_eq!(
        text(run(&cmds, "help").0),
        Ok(concat_lines(&[
            "Available commands:",
            "  tencharsxx exactly ten",
            "  elevenchar one more",
            "             no name",
            "  \u{e9}t\u{e9}        three letters",
        ]) + TRAILER)
    );
}

fn concat_lines(lines: &[&str]) -> String {
    let mut out = String::new();
    for line in lines {
        out.push_str(line);
        out.push('\n');
    }
    out
}

#[test]
fn help_with_a_name_returns_the_stored_help_text() {
    let cmds = table();
    assert_eq!(
        text(run(&cmds, "help led").0),
        Ok("Use 'led on' or 'led off' to control the state of the led.".to_string())
    );
    assert_eq!(
        text(run(&cmds, "help rgb ignored").0),
        Ok("rgb <red> <green> <blue>\nUse values from 0 to 255 to specify channel brightness.".to_string())
    );
}

#[test]
fn help_with_an_unknown_name_fails_with_cmd_not_found() {
    let cmds = table();
    assert_eq!(run(&cmds, "help bogus").0, Err(Error::CmdNotFound));
    assert_eq!(run(&cmds, "help help").0, Err(Error::CmdNotFound));
}

#[test]
fn help_is_never_looked_up_in_the_table() {
    let cmds = vec![command("help", "shadowed", "shadowed help", cmd_exit)];
    assert_eq!(
        text(run(&cmds, "help").0),
        Ok("Available commands:\n  help       shadowed\nUse 'help <command> to get more details.".to_string())
    );
    assert_eq!(text(run(&cmds, "help help").0), Ok("shadowed help".to_string()));
}

fn cmd_small(_args: Args<'_>) -> Result<BoundedString<64>, Error> {
    BoundedString::<64>::from("ok")
}

type SmallCallback = for<'a> fn(Args<'a>) -> Result<BoundedString<64>, Error>;

fn small_entry(name: &'static str, descr: &'static str, help: &'static str) -> Cmd<64, SmallCallback> {
    Cmd { name, descr, help, callback: cmd_small }
}

#[test]
fn help_that_does_not_fit_fails_with_buffer_overflow() {
    // header 20, one entry 2 + 10 + 1 + 1 + 1 = 15, trailer 40: 75 bytes
    let cmds = vec![small_entry("a", "b", "short")];
    let cli = Cli::<SmallCallback, 64, 32>::new(&cmds);
    assert_eq!(cli.dispatch("help"), Err(Error::BufferOverflow));
    assert_eq!(cli.dispatch("help a").map(|b| b.as_str().to_string()), Ok("short".to_string()));
    let none: Vec<Cmd<64, SmallCallback>> = Vec::new();
    let cli = Cli::<SmallCallback, 64, 32>::new(&none);
    assert_eq!(cli.dispatch("help").map(|b| b.len()), Ok(60));
    let long = vec![small_entry(
        "a",
        "b",
        "0123456789012345678901234567890123456789012345678901234567890123456789",
    )];
    let cli = Cli::<SmallCallback, 64, 32>::new(&long);
    assert_eq!(cli.dispatch("help a"), Err(Error::BufferOverflow));
}

#[test]
fn help_fits_exactly() {
    // header 20 + entry (2 + 10 + 1 + 3 + 1 = 17) + trailer 40 = 77
    let cmds = vec![Cmd { name: "a", descr: "bcd", help: "", callback: cmd_exit77 as Callback77 }];
    let cli = Cli::<Callback77, 77, 32>::new(&cmds);
    assert_eq!(cli.dispatch("help").map(|b| b.len()), Ok(77));
    let cmds = vec![Cmd { name: "a", descr: "bcd", help: "", callback: cmd_exit76 as Callback76 }];
    let cli = Cli::<Callback76, 76, 32>::new(&cmds);
    assert_eq!(cli.dispatch("help"), Err(Error::BufferOverflow));
}

type Callback77 = for<'a> fn(Args<'a>) -> Result<BoundedString<77>, Error>;
type Callback76 = for<'a> fn(Args<'a>) -> Result<BoundedString<76>, Error>;

fn cmd_exit77(_args: Args<'_>) -> Result<BoundedString<77>, Error> {
    Err(Error::CmdFailure)
}

fn cmd_exit76(_args: Args<'_>) -> Result<BoundedString<76>, Error> {
    Err(Error::CmdFailure)
}

#[test]
fn exec_sends_the_answer_out_line_by_line() {
    let cmds = table();
    let mut cli = Shell::new(&cmds);
    assert_eq!(cli.exec("led on"), Ok(()));
    assert_eq!(cli.take_output(), "Led is ON now\n");
    assert_eq!(cli.exec("help rgb"), Ok(()));
    assert_eq!(
        cli.take_output(),
        "rgb <red> <green> <blue>\nUse values from 0 to 255 to specify channel brightness.\n"
    );
    assert_eq!(cli.exec("echo"), Ok(()));
    assert_eq!(cli.take_output(), "");
}

#[test]
fn exec_hands_an_error_back_and_sends_nothing() {
    let cmds = table();
    let mut cli = Shell::new(&cmds);
    assert_eq!(cli.exec(""), Err(Error::EmptyCmd));
    assert_eq!(cli.exec("bogus"), Err(Error::CmdNotFound));
    assert_eq!(cli.exec("led"), Err(Error::NotEnoughArgs));
    assert_eq!(cli.exec("led 2"), Err(Error::InvalidArgType));
    assert_eq!(cli.exec("exit"), Err(Error::CmdFailure));
    assert_eq!(cli.take_output(), "");
}

#[test]
fn exec_stops_at_a_line_that_does_not_fit() {
    let cmds = table();
    let mut cli = Shell::new(&cmds);
    assert_eq!(cli.exec("wide"), Err(Error::BufferOverflow));
    assert_eq!(cli.take_output(), "short\n");
}

#[test]
fn print_line_takes_what_fits_with_its_line_feed() {
    let cmds: Vec<Cmd<8, for<'a> fn(Args<'a>) -> Result<BoundedString<8>, Error>>> = Vec::new();
    let mut cli = Cli::<_, 8, 4>::new(&cmds);
    assert_eq!(cli.print_line("abc"), Ok(()));
    assert_eq!(cli.print_line("abcd"), Err(Error::BufferOverflow));
    assert_eq!(cli.print_line(""), Ok(()));
    assert_eq!(cli.print_line("\u{e9}\u{e9}"), Err(Error::BufferOverflow));
    assert_eq!(cli.take_output(), "abc\n\n");
    assert_eq!(cli.print_lines(&["a", "bc", "defg", "h"]), Err(Error::BufferOverflow));
    assert_eq!(cli.take_output(), "a\nbc\n");
    assert_eq!(cli.print_lines(&["a", "", "bcd"]), Ok(()));
    assert_eq!(cli.take_output(), "a\n\nbcd\n");
    assert_eq!(cli.print_lines(&[]), Ok(()));
    assert_eq!(cli.take_output(), "");
}

#[test]
fn announce_and_greeting_get_out_whatever_the_line_buffer() {
    let cmds: Vec<Cmd<8, for<'a> fn(Args<'a>) -> Result<BoundedString<8>, Error>>> = Vec::new();
    let mut cli = Cli::<_, 8, 4>::new(&cmds);
    cli.announce("abc");
    cli.announce("abcdefgh");
    assert_eq!(cli.take_output(), "abc\nabcdefgh\n");
    cli.greeting();
    assert_eq!(
        cli.take_output(),
        "@@@@ amoeba-cli @@@@\nType command and press 'Enter'. Use 'help' to list all available commands\nor 'help foobar' to get more details about specific command.\n> "
    );
}

#[test]
fn greeting_shows_the_banner_and_the_first_prompt() {
    let cmds = table();
    let mut cli = Shell::new(&cmds);
    cli.greeting();
    let out = cli.take_output();
    assert!(out.starts_with("@@@@ amoeba-cli @@@@\n"));
    assert!(out.ends_with("specific command.\n> "));
    assert_eq!(cli.line_buf.as_str(), "");
}

fn feed(cli: &mut Shell<'_>, input: &str) {
    for ch in input.chars() {
        cli.put_char(ch);
    }
}

#[test]
fn put_char_gathers_a_line_and_runs_it_at_the_line_feed() {
    let cmds = table();
    let mut cli = Shell::new(&cmds);
    feed(&mut cli, "led on");
    assert_eq!(cli.line_buf.as_str(), "led on");
    assert_eq!(cli.take_output(), "");
    cli.put_char('\n');
    assert_eq!(cli.line_buf.as_str(), "");
    assert_eq!(cli.take_output(), "Led is ON now\n> ");
}

#[test]
fn put_char_shows_each_error_as_its_line() {
    let cmds = table();
    let mut cli = Shell::new(&cmds);
    let cases = [
        ("\n", "Empty command!\n> "),
        ("   \n", "Empty command!\n> "),
        ("bogus\n", "Command was not found!\n> "),
        ("help bogus\n", "Command was not found!\n> "),
        ("led\n", "Not enough arguments for the command!\n> "),
        ("led maybe\n", "Invalid argument type!\n> "),
        ("exit\n", "Command execution failed!\n> "),
        ("wide\n", "short\nString buffer overflow!\n> "),
    ];
    for (input, output) in cases {
        feed(&mut cli, input);
        assert_eq!(cli.take_output(), output, "{:?}", input);
        assert_eq!(cli.line_buf.as_str(), "");
    }
}

#[test]
fn put_char_drops_what_exceeds_the_line_buffer() {
    let cmds = table();
    let mut cli = Shell::new(&cmds);
    let mut typed = String::from("echo ");
    while typed.len() < 3 * LINE_BUF_SIZE {
        typed.push(char::from(b'a' + (typed.len() % 26) as u8));
    }
    feed(&mut cli, &typed);
    assert_eq!(cli.line_buf.as_str(), &typed[..LINE_BUF_SIZE]);
    assert_eq!(cli.line_buf.len(), LINE_BUF_SIZE);
    assert_eq!(cli.take_output(), "");
    cli.put_char('\n');
    let shown = format!("{}\n> ", &typed[5..LINE_BUF_SIZE]);
    assert_eq!(cli.take_output(), shown);
    assert_eq!(cli.line_buf.as_str(), "");
}

#[test]
fn put_char_drops_a_wide_character_that_does_not_fit_and_takes_a_later_narrow_one() {
    let cmds: Vec<Cmd<8, for<'a> fn(Args<'a>) -> Result<BoundedString<8>, Error>>> = Vec::new();
    let mut cli = Cli::<_, 8, 3>::new(&cmds);
    for ch in "ab\u{e9}c\u{e9}d".chars() {
        cli.put_char(ch);
    }
    assert_eq!(cli.line_buf.as_str(), "abc");
}

#[test]
fn after_a_line_the_interpreter_is_as_at_the_start() {
    let cmds = table();
    let mut fresh = Shell::new(&cmds);
    let mut used = Shell::new(&cmds);
    feed(&mut used, "rgb 1 2 3\n");
    used.take_output();
    assert_eq!(used.line_buf, fresh.line_buf);
    for input in ["led on\n", "help\n", "  \n", "id 7\n"] {
        feed(&mut fresh, input);
        feed(&mut used, input);
        assert_eq!(used.take_output(), fresh.take_output());
        assert_eq!(used.line_buf.as_str(), "");
        assert_eq!(fresh.line_buf.as_str(), "");
    }
}

#[test]
fn put_line_is_put_char_on_each_character_and_a_line_feed() {
    let cmds = table();
    for line in ["led on", "", "help", "echo a\nled off", "bogus  "] {
        let mut by_line = Shell::new(&cmds);
        let mut by_char = Shell::new(&cmds);
        by_line.put_line(line);
        feed(&mut by_char, line);
        by_char.put_char('\n');
        assert_eq!(by_line.take_output(), by_char.take_output());
        assert_eq!(by_line.line_buf.as_str(), "");
    }
    let mut cli = Shell::new(&cmds);
    cli.put_line("echo a\nled off");
    assert_eq!(cli.take_output(), "a\n> Led is OFF now\n> ");
}

#[test]
fn help_through_the_interpreter_shows_the_summary() {
    let cmds = two_entries();
    let mut cli = Shell::new(&cmds);
    cli.put_line("help");
    assert_eq!(
        cli.take_output(),
        "Available commands:\n  led        led control\n  exit       exit CLI\nUse 'help <command> to get more details.\n> "
    );
    let _ = PROMPT;
}

#[test]
fn error_messages_are_fixed() {
    assert_eq!(Error::CmdFailure.to_str(), "Command execution failed!");
    assert_eq!(Error::BufferOverflow.to_str(), "String buffer overflow!");
    assert_eq!(Error::CmdNotFound.to_str(), "Command was not found!");
    assert_eq!(Error::EmptyCmd.to_str(), "Empty command!");
    assert_eq!(Error::NotEnoughArgs.to_str(), "Not enough arguments for the command!");
    assert_eq!(Error::InvalidArgType.to_str(), "Invalid argument type!");
}
