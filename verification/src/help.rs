//! What `help` shows: the text of one command, or a summary of them all.

use crate::buffer::{appended, fitted, lemma_overflow_grows, text_of, BoundedString};
use crate::cmd::{find_index, Cmd};
use crate::error::Error;
use crate::text::{byte_len, lemma_byte_len_add, lemma_byte_len_push};
use vstd::prelude::*;

verus! {

/// The width of the column that the summary shows the names in.
pub const NAME_WIDTH: usize = 10;

/// The line above the summary's entries.
pub const SUMMARY_HEADER: &'static str = "Available commands:\n";

/// The line below the summary's entries.
pub const SUMMARY_TRAILER: &'static str = "Use 'help <command> to get more details.";

/// A name in its column: cut after `NAME_WIDTH` characters, or filled up to
/// them with blanks behind it.
pub open spec fn name_field(name: Seq<char>) -> Seq<char> {
    if name.len() >= NAME_WIDTH {
        name.take(NAME_WIDTH as int)
    } else {
        name + Seq::new((NAME_WIDTH - name.len()) as nat, |i: int| ' ')
    }
}

/// The summary's entry for one command: two blanks, the name in its column,
/// a blank, the description, a line feed.
pub open spec fn summary_entry<const N: usize, F>(cmd: Cmd<N, F>) -> Seq<char> {
    seq![' ', ' '] + name_field(cmd.name@) + seq![' '] + cmd.descr@ + seq!['\n']
}

/// The entries of all the commands, in the order of the table.
pub open spec fn summary_entries<const N: usize, F>(cmds: Seq<Cmd<N, F>>) -> Seq<char>
    decreases cmds.len(),
{
    if cmds.len() == 0 {
        Seq::empty()
    } else {
        summary_entry(cmds[0]) + summary_entries(cmds.drop_first())
    }
}

/// The summary: the header, the entries, the trailer.
pub open spec fn summary_text<const N: usize, F>(cmds: Seq<Cmd<N, F>>) -> Seq<char> {
    SUMMARY_HEADER@ + summary_entries(cmds) + SUMMARY_TRAILER@
}

/// What `help` has to show for the tokens that follow it: the summary where
/// none follows, else the text of the command that the first one names.
pub open spec fn help_text<const N: usize, F>(cmds: Seq<Cmd<N, F>>, args: Seq<Seq<char>>) -> Result<
    Seq<char>,
    Error,
> {
    if args.len() == 0 {
        Ok(summary_text(cmds))
    } else {
        match find_index(cmds, args[0]) {
            Some(i) => Ok(cmds[i].help@),
            None => Err(Error::CmdNotFound),
        }
    }
}

/// Appends `name` in its column.
fn push_name_field<const N: usize>(buf: &mut BoundedString<N>, name: &str) -> (done: Result<
    (),
    Error,
>)
    ensures
        appended::<N>(old(buf)@, final(buf)@, name_field(name@), done),
{
    let ghost before = buf@;
    let ghost field = name_field(name@);
    let n = name.unicode_len();
    if n >= NAME_WIDTH {
        proof {
            assert(name@.subrange(0, NAME_WIDTH as int) =~= field);
            lemma_byte_len_add(before, field);
        }
        buf.try_push_str(name.substring_char(0, NAME_WIDTH))
    } else {
        match buf.try_push_str(name) {
            Ok(()) => {},
            Err(e) => {
                proof {
                    assert(field =~= name@ + field.skip(n as int));
                    lemma_byte_len_add(name@, field.skip(n as int));
                    lemma_byte_len_add(before, name@);
                    lemma_byte_len_add(before, field);
                }
                return Err(e);
            },
        }
        let mut i: usize = n;
        while i < NAME_WIDTH
            invariant
                n <= i <= NAME_WIDTH,
                n == name@.len(),
                before == old(buf)@,
                field == name_field(name@),
                buf@ == before + field.take(i as int),
            decreases NAME_WIDTH - i,
        {
            let ghost held = buf@;
            match buf.try_push(' ') {
                Ok(()) => {
                    assert(held.push(' ') =~= before + field.take(i + 1));
                },
                Err(e) => {
                    proof {
                        let part = field.take(i + 1);
                        assert(held.push(' ') =~= before + part);
                        assert(field =~= part + field.skip(i + 1));
                        lemma_byte_len_add(part, field.skip(i + 1));
                        lemma_byte_len_add(before, part);
                        lemma_byte_len_add(before, field);
                        lemma_byte_len_push(held, ' ');
                    }
                    return Err(e);
                },
            }
            i += 1;
        }
        assert(field.take(NAME_WIDTH as int) =~= field);
        Ok(())
    }
}

/// Appends the summary's entry for `cmd`.
fn push_entry<const N: usize, F>(buf: &mut BoundedString<N>, cmd: &Cmd<N, F>) -> (done: Result<
    (),
    Error,
>)
    ensures
        appended::<N>(old(buf)@, final(buf)@, summary_entry(*cmd), done),
{
    let ghost before = buf@;
    let ghost entry = summary_entry(*cmd);
    let ghost indent = seq![' ', ' '];
    let ghost named = indent + name_field(cmd.name@);
    let ghost spaced = named + seq![' '];
    let ghost described = spaced + cmd.descr@;
    assert(entry =~= described + seq!['\n']);
    if let Err(e) = buf.try_push(' ') {
        proof {
            lemma_byte_len_push(before, ' ');
            assert(before.push(' ') =~= before + seq![' ']);
            lemma_overflow_grows(before, seq![' '], entry, N as int);
        }
        return Err(e);
    }
    if let Err(e) = buf.try_push(' ') {
        proof {
            lemma_byte_len_push(before.push(' '), ' ');
            assert(before.push(' ').push(' ') =~= before + indent);
            lemma_overflow_grows(before, indent, entry, N as int);
        }
        return Err(e);
    }
    assert(buf@ =~= before + indent);
    if let Err(e) = push_name_field(buf, cmd.name) {
        proof {
            assert((before + indent) + name_field(cmd.name@) =~= before + named);
            lemma_overflow_grows(before, named, entry, N as int);
        }
        return Err(e);
    }
    assert(buf@ =~= before + named);
    if let Err(e) = buf.try_push(' ') {
        proof {
            lemma_byte_len_push(before + named, ' ');
            assert((before + named).push(' ') =~= before + spaced);
            lemma_overflow_grows(before, spaced, entry, N as int);
        }
        return Err(e);
    }
    assert(buf@ =~= before + spaced);
    if let Err(e) = buf.try_push_str(cmd.descr) {
        proof {
            lemma_byte_len_add(before + spaced, cmd.descr@);
            assert((before + spaced) + cmd.descr@ =~= before + described);
            lemma_overflow_grows(before, described, entry, N as int);
        }
        return Err(e);
    }
    assert(buf@ =~= before + described);
    if let Err(e) = buf.try_push('\n') {
        proof {
            lemma_byte_len_push(before + described, '\n');
            assert((before + described).push('\n') =~= before + entry);
        }
        return Err(e);
    }
    assert(buf@ =~= before + entry);
    Ok(())
}

/// The summary of the table, if it fits `N` bytes.
pub fn summary<const N: usize, F>(cmds: &[Cmd<N, F>]) -> (text: Result<BoundedString<N>, Error>)
    ensures
        text_of(text) == fitted(Ok(summary_text(cmds@)), N as int),
{
    let ghost whole = summary_text(cmds@);
    let ghost trailer = SUMMARY_TRAILER@;
    let mut buf = BoundedString::<N>::new();
    if let Err(e) = buf.try_push_str(SUMMARY_HEADER) {
        proof {
            let empty = Seq::<char>::empty();
            assert(empty + SUMMARY_HEADER@ =~= SUMMARY_HEADER@);
            assert(empty + whole =~= whole);
            lemma_byte_len_add(empty, SUMMARY_HEADER@);
            lemma_overflow_grows(empty, SUMMARY_HEADER@, whole, N as int);
        }
        return Err(e);
    }
    let mut i: usize = 0;
    assert(cmds@.skip(0) =~= cmds@);
    assert(buf@ =~= SUMMARY_HEADER@);
    while i < cmds.len()
        invariant
            i <= cmds.len(),
            whole == summary_text(cmds@),
            trailer == SUMMARY_TRAILER@,
            buf@ + (summary_entries(cmds@.skip(i as int)) + trailer) == whole,
        decreases cmds.len() - i,
    {
        let ghost held = buf@;
        let ghost entry = summary_entry(cmds@[i as int]);
        let ghost later = summary_entries(cmds@.skip(i + 1)) + trailer;
        proof {
            assert(cmds@.skip(i as int).drop_first() =~= cmds@.skip(i + 1));
            assert(held + (entry + later) =~= whole);
        }
        if let Err(e) = push_entry(&mut buf, &cmds[i]) {
            proof {
                assert(whole =~= (held + entry) + later);
                lemma_byte_len_add(held + entry, later);
            }
            return Err(e);
        }
        assert(buf@ + later =~= whole);
        i += 1;
    }
    let ghost held = buf@;
    assert(held + trailer =~= whole);
    if let Err(e) = buf.try_push_str(SUMMARY_TRAILER) {
        proof {
            lemma_byte_len_add(held, trailer);
        }
        return Err(e);
    }
    proof {
        use_type_invariant(&buf);
    }
    Ok(buf)
}

} // verus!
