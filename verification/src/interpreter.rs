//! The interpreter: it gathers characters into a line and, at the end of a
//! line, runs the command that the line names and shows what came of it.

use crate::args::{is_blank, lemma_tokens_blank, tokens, Args};
use crate::buffer::{fitted, text_of, BoundedString};
use crate::cmd::{callable, find, find_index, is_help, Cmd};
use crate::error::Error;
use crate::help::{help_text, summary};
use crate::text::{
    byte_len, char_width, lemma_byte_len_bounds, lemma_byte_len_push, lines, lines_of, str_eq,
    views,
};
use vstd::prelude::*;

verus! {

/// A line as it goes out: the line, then a line feed.
pub open spec fn framed(line: Seq<char>) -> Seq<char> {
    line.push('\n')
}

/// Whether a line and its line feed fit a buffer of `cap` bytes.
pub open spec fn line_fits(line: Seq<char>, cap: int) -> bool {
    byte_len(line) + 1 <= cap
}

/// Whether every one of the lines fits.
pub open spec fn all_fit(lines: Seq<Seq<char>>, cap: int) -> bool {
    forall|i: int| 0 <= i < lines.len() ==> line_fits(#[trigger] lines[i], cap)
}

/// All the lines as they go out, one after the other.
pub open spec fn framed_all(lines: Seq<Seq<char>>) -> Seq<char>
    decreases lines.len(),
{
    if lines.len() == 0 {
        Seq::empty()
    } else {
        framed(lines[0]) + framed_all(lines.drop_first())
    }
}

/// What goes out of the lines through a buffer of `cap` bytes: each line in
/// turn, up to the first that does not fit.
pub open spec fn emitted(lines: Seq<Seq<char>>, cap: int) -> Seq<char>
    decreases lines.len(),
{
    if lines.len() == 0 || !line_fits(lines[0], cap) {
        Seq::empty()
    } else {
        framed(lines[0]) + emitted(lines.drop_first(), cap)
    }
}

/// Whether `outcome` can come of the line `line`: `EmptyCmd` for a line
/// without a token; after `help`, what `help` shows for the tokens that
/// follow; `CmdNotFound` where the first token names no command; else what
/// the callback of the command that it names gives for the tokens that
/// follow, as it gives it.
pub open spec fn dispatched<const N: usize, F>(
    cmds: Seq<Cmd<N, F>>,
    line: Seq<char>,
    outcome: Result<BoundedString<N>, Error>,
) -> bool where F: for<'a> Fn(Args<'a>) -> Result<BoundedString<N>, Error> {
    let all = tokens(line);
    if all.len() == 0 {
        outcome == Err::<BoundedString<N>, Error>(Error::EmptyCmd)
    } else if is_help(all[0]) {
        text_of(outcome) == fitted(help_text(cmds, all.drop_first()), N as int)
    } else {
        match find_index(cmds, all[0]) {
            Some(i) => exists|args: Args<'static>|
                args@ == all.drop_first() && #[trigger] call_ensures(
                    cmds[i].callback,
                    (args,),
                    outcome,
                ),
            None => outcome == Err::<BoundedString<N>, Error>(Error::CmdNotFound),
        }
    }
}

/// What goes out of an outcome by itself: the lines of an answer, up to the
/// first that does not fit a buffer of `cap` bytes; of an error, nothing.
pub open spec fn shown<const N: usize>(outcome: Result<BoundedString<N>, Error>, cap: int) -> Seq<
    char,
> {
    match outcome {
        Ok(text) => emitted(lines_of(text@), cap),
        Err(_) => Seq::empty(),
    }
}

/// How an outcome ends: well where an answer went out whole, with
/// `BufferOverflow` where one of its lines did not fit, with its own error
/// where it is one.
pub open spec fn verdict<const N: usize>(outcome: Result<BoundedString<N>, Error>, cap: int) -> Result<
    (),
    Error,
> {
    match outcome {
        Ok(text) => if all_fit(lines_of(text@), cap) {
            Ok(())
        } else {
            Err(Error::BufferOverflow)
        },
        Err(e) => Err(e),
    }
}

/// All that goes out of an outcome: what it shows, then the line of the
/// error that it ended with, if it did.
pub open spec fn rendered<const N: usize>(outcome: Result<BoundedString<N>, Error>, cap: int) -> Seq<
    char,
> {
    shown(outcome, cap) + match verdict(outcome, cap) {
        Ok(()) => Seq::empty(),
        Err(e) => framed(e.message()),
    }
}

/// The line after one more character: with it at the end where it fits
/// `cap` bytes, else as it was.
pub open spec fn pushed(line: Seq<char>, ch: char, cap: int) -> Seq<char> {
    if byte_len(line) + char_width(ch) <= cap {
        line.push(ch)
    } else {
        line
    }
}

/// The line after a run of characters, taken one by one.
pub open spec fn accumulated(line: Seq<char>, input: Seq<char>, cap: int) -> Seq<char>
    decreases input.len(),
{
    if input.len() == 0 {
        line
    } else {
        accumulated(pushed(line, input[0], cap), input.drop_first(), cap)
    }
}

/// Whether one character can take an interpreter from the line `line0`,
/// with `out0` gone out, to `line1` and `out1`. A line feed runs the line:
/// what comes of it goes out, then the prompt, and the line is empty again.
/// Any other character joins the line where it fits, and is dropped where
/// it does not; nothing goes out.
pub open spec fn stepped<const N: usize, F>(
    cmds: Seq<Cmd<N, F>>,
    cap: int,
    prompt: Seq<char>,
    line0: Seq<char>,
    out0: Seq<char>,
    ch: char,
    line1: Seq<char>,
    out1: Seq<char>,
) -> bool where F: for<'a> Fn(Args<'a>) -> Result<BoundedString<N>, Error> {
    if ch == '\n' {
        &&& line1 == Seq::<char>::empty()
        &&& exists|outcome: Result<BoundedString<N>, Error>| #[trigger]
            dispatched(cmds, line0, outcome) && out1 == out0 + rendered(outcome, cap) + prompt
    } else {
        &&& line1 == pushed(line0, ch, cap)
        &&& out1 == out0
    }
}

/// Whether the characters of `input`, one after the other, can take an
/// interpreter from `line0` and `out0` to `line1` and `out1`.
pub open spec fn fed<const N: usize, F>(
    cmds: Seq<Cmd<N, F>>,
    cap: int,
    prompt: Seq<char>,
    line0: Seq<char>,
    out0: Seq<char>,
    input: Seq<char>,
    line1: Seq<char>,
    out1: Seq<char>,
) -> bool where F: for<'a> Fn(Args<'a>) -> Result<BoundedString<N>, Error>
    decreases input.len(),
{
    if input.len() == 0 {
        line1 == line0 && out1 == out0
    } else {
        exists|line: Seq<char>, out: Seq<char>| #[trigger]
            stepped(cmds, cap, prompt, line0, out0, input[0], line, out) && fed(
                cmds,
                cap,
                prompt,
                line,
                out,
                input.drop_first(),
                line1,
                out1,
            )
    }
}

/// An interpreter over a table of commands whose callbacks, of type `F`,
/// answer in buffers of `CMD_BUF_SIZE` bytes, with a line buffer of
/// `LINE_BUF_SIZE` bytes. A callback takes the tokens after the command's
/// name and answers with a text or an error. An implementation says where
/// the table and the line buffer are kept and how text goes out; the rest
/// is given.
pub trait Interpreter<F, const CMD_BUF_SIZE: usize, const LINE_BUF_SIZE: usize> where
    F: for<'a> Fn(Args<'a>) -> Result<BoundedString<CMD_BUF_SIZE>, Error>,
 {
    /// Shown once, when a session starts.
    const GREETING: &'static str =
        "@@@@ amoeba-cli @@@@\nType command and press 'Enter'. Use 'help' to list all available commands\nor 'help foobar' to get more details about specific command.\n";

    /// Shown whenever a line may be typed.
    const PROMPT: &'static str = "> ";

    /// The table of commands.
    spec fn cmds(&self) -> Seq<Cmd<CMD_BUF_SIZE, F>>;

    /// The line typed so far.
    spec fn line(&self) -> Seq<char>;

    /// All that has gone out so far.
    spec fn printed(&self) -> Seq<char>;

    /// The table of commands. Every callback of it may be called on every
    /// stream of tokens.
    fn cmds_arr(&self) -> (cmds: &[Cmd<CMD_BUF_SIZE, F>])
        ensures
            cmds@ == self.cmds(),
            callable(cmds@),
    ;

    /// The line buffer, to be changed: what is done to it is done to the
    /// line, and to nothing else.
    fn line_buf_mut(&mut self) -> (buf: &mut BoundedString<LINE_BUF_SIZE>)
        ensures
            buf@ == old(self).line(),
            final(self).line() == final(buf)@,
            final(self).cmds() == old(self).cmds(),
            final(self).printed() == old(self).printed(),
    ;

    /// The line buffer.
    fn line_buf(&self) -> (buf: &BoundedString<LINE_BUF_SIZE>)
        ensures
            buf@ == self.line(),
    ;

    /// Sends `s` out.
    fn print(&mut self, s: &str)
        ensures
            final(self).printed() == old(self).printed() + s@,
            final(self).line() == old(self).line(),
            final(self).cmds() == old(self).cmds(),
    ;

    /// The first command of the table that is called `name`.
    fn cmd_from_name(&self, name: &str) -> (found: Option<&Cmd<CMD_BUF_SIZE, F>>)
        ensures
            match find_index(self.cmds(), name@) {
                Some(i) => found == Some(&self.cmds()[i]),
                None => found is None,
            },
    {
        find(self.cmds_arr(), name)
    }

    /// Sends one line out, through a buffer of `LINE_BUF_SIZE` bytes that
    /// has to hold the line and its line feed.
    fn print_line(&mut self, line: &str) -> (sent: Result<(), Error>)
        ensures
            line_fits(line@, LINE_BUF_SIZE as int) ==> sent is Ok && final(self).printed() == old(
                self,
            ).printed() + framed(line@),
            !line_fits(line@, LINE_BUF_SIZE as int) ==> sent == Err::<(), Error>(
                Error::BufferOverflow,
            ) && final(self).printed() == old(self).printed(),
            final(self).line() == old(self).line(),
            final(self).cmds() == old(self).cmds(),
    {
        let mut line_buf = match BoundedString::<LINE_BUF_SIZE>::from(line) {
            Ok(buf) => buf,
            Err(e) => return Err(e),
        };
        proof {
            lemma_byte_len_push(line@, '\n');
        }
        match line_buf.try_push('\n') {
            Ok(()) => {},
            Err(e) => return Err(e),
        }
        self.print(line_buf.as_str());
        Ok(())
    }

    /// Sends the lines out one by one, and stops at the first that does
    /// not fit.
    fn print_lines(&mut self, lines: &[&str]) -> (sent: Result<(), Error>)
        ensures
            final(self).printed() == old(self).printed() + emitted(
                views(lines@),
                LINE_BUF_SIZE as int,
            ),
            sent == if all_fit(views(lines@), LINE_BUF_SIZE as int) {
                Ok::<(), Error>(())
            } else {
                Err(Error::BufferOverflow)
            },
            final(self).line() == old(self).line(),
            final(self).cmds() == old(self).cmds(),
    {
        let ghost all = views(lines@);
        let ghost cap = LINE_BUF_SIZE as int;
        let mut i: usize = 0;
        assert(all.skip(0) =~= all);
        while i < lines.len()
            invariant
                i <= lines.len(),
                all == views(lines@),
                cap == LINE_BUF_SIZE as int,
                forall|k: int| 0 <= k < i ==> line_fits(#[trigger] all[k], cap),
                self.printed() + emitted(all.skip(i as int), cap) == old(self).printed() + emitted(
                    all,
                    cap,
                ),
                self.line() == old(self).line(),
                self.cmds() == old(self).cmds(),
            decreases lines.len() - i,
        {
            let ghost before = self.printed();
            let ghost rest = all.skip(i as int);
            assert(rest[0] == lines@[i as int]@);
            assert(rest.drop_first() =~= all.skip(i + 1));
            match self.print_line(lines[i]) {
                Ok(()) => {
                    assert(self.printed() + emitted(all.skip(i + 1), cap) =~= before + emitted(
                        rest,
                        cap,
                    ));
                },
                Err(e) => {
                    assert(!line_fits(all[i as int], cap));
                    assert(before + emitted(rest, cap) =~= before);
                    return Err(e);
                },
            }
            i += 1;
        }
        assert(self.printed() + emitted(all.skip(i as int), cap) =~= self.printed());
        Ok(())
    }

    /// Sends out a line of the interpreter's own: through the line buffer
    /// where it fits there, and past it where it does not.
    fn announce(&mut self, line: &str)
        ensures
            final(self).printed() == old(self).printed() + framed(line@),
            final(self).line() == old(self).line(),
            final(self).cmds() == old(self).cmds(),
    {
        if self.print_line(line).is_err() {
            let ghost before = self.printed();
            self.print(line);
            self.print("\n");
            proof {
                reveal_strlit("\n");
                assert(before + line@ + "\n"@ =~= before + framed(line@));
            }
        }
    }

    /// Opens a session: the greeting goes out, then the prompt.
    fn greeting(&mut self)
        ensures
            final(self).printed() == old(self).printed() + framed_all(lines_of(Self::GREETING@))
                + Self::PROMPT@,
            final(self).line() == old(self).line(),
            final(self).cmds() == old(self).cmds(),
    {
        let all = lines(Self::GREETING);
        let ghost texts = views(all@);
        let mut i: usize = 0;
        assert(texts.skip(0) =~= texts);
        while i < all.len()
            invariant
                i <= all.len(),
                texts == views(all@),
                self.printed() + framed_all(texts.skip(i as int)) == old(self).printed()
                    + framed_all(texts),
                self.line() == old(self).line(),
                self.cmds() == old(self).cmds(),
            decreases all.len() - i,
        {
            let ghost before = self.printed();
            let ghost rest = texts.skip(i as int);
            assert(rest[0] == all@[i as int]@);
            assert(rest.drop_first() =~= texts.skip(i + 1));
            self.announce(all[i]);
            assert(self.printed() + framed_all(texts.skip(i + 1)) =~= before + framed_all(rest));
            i += 1;
        }
        assert(self.printed() + framed_all(texts.skip(i as int)) =~= self.printed());
        self.print(Self::PROMPT);
    }

    /// What `help` shows for the tokens that follow it: the text of the
    /// command that the first one names, the summary of the table where
    /// none follows.
    fn help(&self, args: Args<'_>) -> (text: Result<BoundedString<CMD_BUF_SIZE>, Error>)
        ensures
            text_of(text) == fitted(help_text(self.cmds(), args@), CMD_BUF_SIZE as int),
    {
        let mut args = args;
        match args.next() {
            Some(name) => match self.cmd_from_name(name) {
                Some(cmd) => BoundedString::<CMD_BUF_SIZE>::from(cmd.help),
                None => Err(Error::CmdNotFound),
            },
            None => summary(self.cmds_arr()),
        }
    }

    /// Finds out what comes of a line: splits it into tokens, and hands
    /// those after the first to `help` or to the callback that the first
    /// names.
    fn dispatch(&self, cmd_line: &str) -> (outcome: Result<BoundedString<CMD_BUF_SIZE>, Error>)
        ensures
            dispatched(self.cmds(), cmd_line@, outcome),
    {
        let mut args = Args::new(cmd_line);
        let cmd_name = match args.next() {
            Some(name) => name,
            None => return Err(Error::EmptyCmd),
        };
        proof {
            reveal_strlit("help");
            assert("help"@ =~= seq!['h', 'e', 'l', 'p']);
        }
        if str_eq(cmd_name, "help") {
            self.help(args)
        } else if let Some(cmd) = find(self.cmds_arr(), cmd_name) {
            let outcome = (cmd.callback)(args);
            assert(call_ensures(cmd.callback, (args,), outcome));
            outcome
        } else {
            Err(Error::CmdNotFound)
        }
    }

    /// Sends out what an outcome shows by itself: the lines of an answer.
    /// An error is handed back as it is.
    fn report(&mut self, outcome: Result<BoundedString<CMD_BUF_SIZE>, Error>) -> (end: Result<
        (),
        Error,
    >)
        ensures
            end == verdict(outcome, LINE_BUF_SIZE as int),
            final(self).printed() == old(self).printed() + shown(outcome, LINE_BUF_SIZE as int),
            final(self).line() == old(self).line(),
            final(self).cmds() == old(self).cmds(),
    {
        match outcome {
            Ok(text) => {
                let all = text.lines();
                self.print_lines(all.as_slice())
            },
            Err(e) => {
                assert(self.printed() + Seq::<char>::empty() =~= self.printed());
                Err(e)
            },
        }
    }

    /// Runs a line: what comes of it is found out, and an answer goes out.
    fn exec(&mut self, cmd_line: &str) -> (end: Result<(), Error>)
        ensures
            exists|outcome: Result<BoundedString<CMD_BUF_SIZE>, Error>| #[trigger]
                dispatched(old(self).cmds(), cmd_line@, outcome) && end == verdict(
                    outcome,
                    LINE_BUF_SIZE as int,
                ) && final(self).printed() == old(self).printed() + shown(
                    outcome,
                    LINE_BUF_SIZE as int,
                ),
            final(self).line() == old(self).line(),
            final(self).cmds() == old(self).cmds(),
    {
        let outcome = self.dispatch(cmd_line);
        self.report(outcome)
    }

    /// Takes one character in.
    fn put_char(&mut self, ch: char)
        ensures
            stepped(
                old(self).cmds(),
                LINE_BUF_SIZE as int,
                Self::PROMPT@,
                old(self).line(),
                old(self).printed(),
                ch,
                final(self).line(),
                final(self).printed(),
            ),
            final(self).cmds() == old(self).cmds(),
    {
        if ch == '\n' {
            let ghost before = self.printed();
            let line = self.line_buf().clone();
            let end = self.exec(line.as_str());
            let ghost outcome = choose|outcome: Result<BoundedString<CMD_BUF_SIZE>, Error>| #[trigger]
                dispatched(old(self).cmds(), line@, outcome) && end == verdict(
                    outcome,
                    LINE_BUF_SIZE as int,
                ) && self.printed() == before + shown(outcome, LINE_BUF_SIZE as int);
            if let Err(e) = end {
                self.announce(e.to_str());
            }
            let ghost told = self.printed();
            assert(told =~= before + rendered(outcome, LINE_BUF_SIZE as int));
            self.print(Self::PROMPT);
            self.line_buf_mut().clear();
        } else {
            let _ = self.line_buf_mut().try_push(ch);
        }
    }

    /// Takes a whole line in: its characters one by one, then a line feed.
    fn put_line(&mut self, line: &str)
        ensures
            fed(
                old(self).cmds(),
                LINE_BUF_SIZE as int,
                Self::PROMPT@,
                old(self).line(),
                old(self).printed(),
                line@.push('\n'),
                final(self).line(),
                final(self).printed(),
            ),
            final(self).line() == Seq::<char>::empty(),
            final(self).cmds() == old(self).cmds(),
    {
        let ghost cmds = self.cmds();
        let ghost cap = LINE_BUF_SIZE as int;
        let ghost prompt = Self::PROMPT@;
        let ghost line0 = self.line();
        let ghost out0 = self.printed();
        assert(line@.take(0) =~= Seq::<char>::empty());
        for c in it: line.chars()
            invariant
                it.seq() == line@,
                cmds == old(self).cmds(),
                cap == LINE_BUF_SIZE as int,
                prompt == Self::PROMPT@,
                line0 == old(self).line(),
                out0 == old(self).printed(),
                self.cmds() == cmds,
                fed(
                    cmds,
                    cap,
                    prompt,
                    line0,
                    out0,
                    line@.take(it.index()),
                    self.line(),
                    self.printed(),
                ),
        {
            let ghost held = self.line();
            let ghost gone = self.printed();
            let ghost taken = line@.take(it.index());
            self.put_char(c);
            proof {
                lemma_fed_push(
                    cmds,
                    cap,
                    prompt,
                    line0,
                    out0,
                    taken,
                    held,
                    gone,
                    c,
                    self.line(),
                    self.printed(),
                );
                assert(taken.push(c) =~= line@.take(it.index() + 1));
            }
        }
        let ghost held = self.line();
        let ghost gone = self.printed();
        self.put_char('\n');
        proof {
            assert(line@.take(line@.len() as int) =~= line@);
            lemma_fed_push(
                cmds,
                cap,
                prompt,
                line0,
                out0,
                line@,
                held,
                gone,
                '\n',
                self.line(),
                self.printed(),
            );
        }
    }
}

/// One more step after a run of steps is a run of steps.
pub proof fn lemma_fed_push<const N: usize, F>(
    cmds: Seq<Cmd<N, F>>,
    cap: int,
    prompt: Seq<char>,
    line0: Seq<char>,
    out0: Seq<char>,
    input: Seq<char>,
    line1: Seq<char>,
    out1: Seq<char>,
    ch: char,
    line2: Seq<char>,
    out2: Seq<char>,
) where F: for<'a> Fn(Args<'a>) -> Result<BoundedString<N>, Error>
    requires
        fed(cmds, cap, prompt, line0, out0, input, line1, out1),
        stepped(cmds, cap, prompt, line1, out1, ch, line2, out2),
    ensures
        fed(cmds, cap, prompt, line0, out0, input.push(ch), line2, out2),
    decreases input.len(),
{
    let more = input.push(ch);
    if input.len() == 0 {
        assert(more[0] == ch);
        assert(more.drop_first() =~= Seq::<char>::empty());
        assert(fed(cmds, cap, prompt, line2, out2, more.drop_first(), line2, out2));
    } else {
        let (line, out) = choose|line: Seq<char>, out: Seq<char>| #[trigger]
            stepped(cmds, cap, prompt, line0, out0, input[0], line, out) && fed(
                cmds,
                cap,
                prompt,
                line,
                out,
                input.drop_first(),
                line1,
                out1,
            );
        lemma_fed_push(
            cmds,
            cap,
            prompt,
            line,
            out,
            input.drop_first(),
            line1,
            out1,
            ch,
            line2,
            out2,
        );
        assert(more[0] == input[0]);
        assert(more.drop_first() =~= input.drop_first().push(ch));
    }
}

/// A line of white space only, or of nothing, can come to nothing but
/// `EmptyCmd`.
pub proof fn lemma_blank_line<const N: usize, F>(
    cmds: Seq<Cmd<N, F>>,
    line: Seq<char>,
    outcome: Result<BoundedString<N>, Error>,
) where F: for<'a> Fn(Args<'a>) -> Result<BoundedString<N>, Error>
    requires
        is_blank(line),
    ensures
        dispatched(cmds, line, outcome) <==> outcome == Err::<BoundedString<N>, Error>(
            Error::EmptyCmd,
        ),
{
    lemma_tokens_blank(line);
}

/// Characters that are no line feed only fill the line, one by one, and
/// nothing goes out.
pub proof fn lemma_fed_quiet<const N: usize, F>(
    cmds: Seq<Cmd<N, F>>,
    cap: int,
    prompt: Seq<char>,
    line0: Seq<char>,
    out0: Seq<char>,
    input: Seq<char>,
    line1: Seq<char>,
    out1: Seq<char>,
) where F: for<'a> Fn(Args<'a>) -> Result<BoundedString<N>, Error>
    requires
        forall|k: int| 0 <= k < input.len() ==> input[k] != '\n',
        fed(cmds, cap, prompt, line0, out0, input, line1, out1),
    ensures
        line1 == accumulated(line0, input, cap),
        out1 == out0,
    decreases input.len(),
{
    if input.len() != 0 {
        let (line, out) = choose|line: Seq<char>, out: Seq<char>| #[trigger]
            stepped(cmds, cap, prompt, line0, out0, input[0], line, out) && fed(
                cmds,
                cap,
                prompt,
                line,
                out,
                input.drop_first(),
                line1,
                out1,
            );
        let rest = input.drop_first();
        assert forall|k: int| 0 <= k < rest.len() implies rest[k] != '\n' by {
            assert(rest[k] == input[k + 1]);
        }
        lemma_fed_quiet(cmds, cap, prompt, line, out, rest, line1, out1);
    }
}

/// Characters that fit behind the line all join it.
pub proof fn lemma_accumulated_fits(line: Seq<char>, input: Seq<char>, cap: int)
    requires
        byte_len(line + input) <= cap,
    ensures
        accumulated(line, input, cap) == line + input,
    decreases input.len(),
{
    if input.len() == 0 {
        assert(line + input =~= line);
    } else {
        let rest = input.drop_first();
        assert(line + input =~= line.push(input[0]) + rest);
        crate::text::lemma_byte_len_add(line.push(input[0]), rest);
        lemma_byte_len_push(line, input[0]);
        lemma_accumulated_fits(line.push(input[0]), rest, cap);
    }
}

/// A line that fills its buffer takes no more characters.
pub proof fn lemma_accumulated_full(line: Seq<char>, input: Seq<char>, cap: int)
    requires
        byte_len(line) >= cap,
    ensures
        accumulated(line, input, cap) == line,
    decreases input.len(),
{
    if input.len() != 0 {
        lemma_accumulated_full(line, input.drop_first(), cap);
    }
}

/// Taking characters in two runs is taking them in one.
pub proof fn lemma_accumulated_add(line: Seq<char>, first: Seq<char>, then: Seq<char>, cap: int)
    ensures
        accumulated(line, first + then, cap) == accumulated(
            accumulated(line, first, cap),
            then,
            cap,
        ),
    decreases first.len(),
{
    if first.len() == 0 {
        assert(first + then =~= then);
    } else {
        assert((first + then).drop_first() =~= first.drop_first() + then);
        lemma_accumulated_add(pushed(line, first[0], cap), first.drop_first(), then, cap);
    }
}

/// Typing past the capacity of the line buffer: where the first `cap`
/// characters typed since the line was empty (all of them, if they are
/// fewer) fit the buffer, and no line feed is among what was typed, the
/// line is those characters, what came after them is dropped, and nothing
/// goes out.
pub proof fn lemma_overflow_keeps_first<const N: usize, F>(
    cmds: Seq<Cmd<N, F>>,
    cap: int,
    prompt: Seq<char>,
    out0: Seq<char>,
    input: Seq<char>,
    line1: Seq<char>,
    out1: Seq<char>,
) where F: for<'a> Fn(Args<'a>) -> Result<BoundedString<N>, Error>
    requires
        0 <= cap,
        forall|k: int| 0 <= k < input.len() ==> input[k] != '\n',
        byte_len(input.take(if input.len() <= cap { input.len() as int } else { cap })) <= cap,
        fed(cmds, cap, prompt, Seq::empty(), out0, input, line1, out1),
    ensures
        line1 == input.take(if input.len() <= cap { input.len() as int } else { cap }),
        out1 == out0,
{
    let k = if input.len() <= cap { input.len() as int } else { cap };
    let kept = input.take(k);
    let dropped = input.skip(k);
    let empty = Seq::<char>::empty();
    lemma_fed_quiet(cmds, cap, prompt, empty, out0, input, line1, out1);
    assert(input =~= kept + dropped);
    lemma_accumulated_add(empty, kept, dropped, cap);
    assert(empty + kept =~= kept);
    lemma_accumulated_fits(empty, kept, cap);
    if k < input.len() {
        lemma_byte_len_bounds(kept);
        lemma_accumulated_full(kept, dropped, cap);
    } else {
        assert(dropped =~= empty);
    }
}

/// After a line feed the line is empty, as when the session started: what
/// can come of any further input is what can come of it from the start.
pub proof fn lemma_line_feed_resets<const N: usize, F>(
    cmds: Seq<Cmd<N, F>>,
    cap: int,
    prompt: Seq<char>,
    line0: Seq<char>,
    out0: Seq<char>,
    line1: Seq<char>,
    out1: Seq<char>,
) where F: for<'a> Fn(Args<'a>) -> Result<BoundedString<N>, Error>
    requires
        stepped(cmds, cap, prompt, line0, out0, '\n', line1, out1),
    ensures
        line1 == Seq::<char>::empty(),
        forall|out: Seq<char>, input: Seq<char>, line2: Seq<char>, out2: Seq<char>|
            fed(cmds, cap, prompt, line1, out, input, line2, out2) == fed(
                cmds,
                cap,
                prompt,
                Seq::empty(),
                out,
                input,
                line2,
                out2,
            ),
{
}

} // verus!
