//! An interpreter that keeps what goes out, until it is taken.

use crate::args::Args;
use crate::buffer::BoundedString;
use crate::cmd::{callable, Cmd, Registry};
use crate::error::Error;
use crate::interpreter::Interpreter;
use vstd::prelude::*;

verus! {

/// An interpreter over a borrowed table of commands. What it sends out is
/// gathered in `out`, for the caller to take and show.
#[verifier::reject_recursive_types(CMD_BUF_SIZE)]
pub struct Cli<'c, F, const CMD_BUF_SIZE: usize, const LINE_BUF_SIZE: usize> where
    F: for<'a> Fn(Args<'a>) -> Result<BoundedString<CMD_BUF_SIZE>, Error>,
 {
    pub line_buf: BoundedString<LINE_BUF_SIZE>,
    pub cmds: Registry<'c, F, CMD_BUF_SIZE>,
    pub out: String,
}

impl<'c, F, const CMD_BUF_SIZE: usize, const LINE_BUF_SIZE: usize> Cli<
    'c,
    F,
    CMD_BUF_SIZE,
    LINE_BUF_SIZE,
> where F: for<'a> Fn(Args<'a>) -> Result<BoundedString<CMD_BUF_SIZE>, Error> {
    /// An interpreter over `cmds`, with an empty line and nothing sent out.
    pub fn new(cmds: &'c [Cmd<CMD_BUF_SIZE, F>]) -> (cli: Self)
        requires
            callable(cmds@),
        ensures
            cli.cmds@ == cmds@,
            cli.line_buf@ == Seq::<char>::empty(),
            cli.out@ == Seq::<char>::empty(),
    {
        Cli { line_buf: BoundedString::new(), cmds: Registry::new(cmds), out: String::new() }
    }

    /// Hands over what has been sent out since this was last called.
    pub fn take_output(&mut self) -> (text: String)
        ensures
            text@ == old(self).out@,
            final(self).out@ == Seq::<char>::empty(),
            final(self).line_buf == old(self).line_buf,
            final(self).cmds == old(self).cmds,
    {
        let mut text = String::new();
        core::mem::swap(&mut self.out, &mut text);
        text
    }
}

impl<'c, F, const CMD_BUF_SIZE: usize, const LINE_BUF_SIZE: usize> Interpreter<
    F,
    CMD_BUF_SIZE,
    LINE_BUF_SIZE,
> for Cli<'c, F, CMD_BUF_SIZE, LINE_BUF_SIZE> where
    F: for<'a> Fn(Args<'a>) -> Result<BoundedString<CMD_BUF_SIZE>, Error>,
 {
    open spec fn cmds(&self) -> Seq<Cmd<CMD_BUF_SIZE, F>> {
        self.cmds@
    }

    open spec fn line(&self) -> Seq<char> {
        self.line_buf@
    }

    open spec fn printed(&self) -> Seq<char> {
        self.out@
    }

    fn cmds_arr(&self) -> (cmds: &[Cmd<CMD_BUF_SIZE, F>]) {
        self.cmds.as_slice()
    }

    fn line_buf_mut(&mut self) -> (buf: &mut BoundedString<LINE_BUF_SIZE>) {
        &mut self.line_buf
    }

    fn line_buf(&self) -> (buf: &BoundedString<LINE_BUF_SIZE>) {
        &self.line_buf
    }

    fn print(&mut self, s: &str) {
        self.out.append(s);
    }
}

} // verus!
