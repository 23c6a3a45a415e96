//! Commands, and the table that they are looked up in by name.

use crate::args::Args;
use crate::buffer::BoundedString;
use crate::error::Error;
use crate::text::str_eq;
use vstd::prelude::*;

verus! {

/// A command: its name, a line that describes it, the text that `help`
/// shows for it, and the callback that runs it on the tokens after its name.
/// `BUF_SIZE` is the capacity of the buffer that the callback answers in.
pub struct Cmd<const BUF_SIZE: usize, F> {
    pub name: &'static str,
    pub descr: &'static str,
    pub help: &'static str,
    pub callback: F,
}

/// Whether every callback of the table may be called on every stream of
/// tokens.
pub open spec fn callable<const N: usize, F>(cmds: Seq<Cmd<N, F>>) -> bool where
    F: for<'a> Fn(Args<'a>) -> Result<BoundedString<N>, Error>,
 {
    forall|i: int, args: Args<'static>|
        0 <= i < cmds.len() ==> #[trigger] call_requires(cmds[i].callback, (args,))
}

/// A table of commands that is ready for use: every callback of it may be
/// called on every stream of tokens.
#[verifier::reject_recursive_types(N)]
pub struct Registry<'c, F, const N: usize> where
    F: for<'a> Fn(Args<'a>) -> Result<BoundedString<N>, Error>,
 {
    cmds: &'c [Cmd<N, F>],
}

impl<'c, F, const N: usize> View for Registry<'c, F, N> where
    F: for<'a> Fn(Args<'a>) -> Result<BoundedString<N>, Error>,
 {
    type V = Seq<Cmd<N, F>>;

    /// The commands, in the order of the table.
    closed spec fn view(&self) -> Seq<Cmd<N, F>> {
        self.cmds@
    }
}

impl<'c, F, const N: usize> Registry<'c, F, N> where
    F: for<'a> Fn(Args<'a>) -> Result<BoundedString<N>, Error>,
 {
    #[verifier::type_invariant]
    pub open spec fn callbacks_total(self) -> bool {
        callable(self@)
    }

    /// The registry of the commands of `cmds`.
    pub fn new(cmds: &'c [Cmd<N, F>]) -> (registry: Self)
        requires
            callable(cmds@),
        ensures
            registry@ == cmds@,
    {
        Registry { cmds }
    }

    /// The commands, in the order of the table.
    pub fn as_slice(&self) -> (cmds: &'c [Cmd<N, F>])
        ensures
            cmds@ == self@,
            callable(cmds@),
    {
        proof {
            use_type_invariant(self);
        }
        self.cmds
    }
}

/// Whether a name is `help`, the one that asks for help. No command of the
/// table is reached under it.
pub open spec fn is_help(name: Seq<char>) -> bool {
    name =~= seq!['h', 'e', 'l', 'p']
}

/// Whether a table is one in which every command can be reached: no two
/// commands share a name, and none is called `help`.
pub open spec fn well_formed<const N: usize, F>(cmds: Seq<Cmd<N, F>>) -> bool {
    &&& forall|i: int, j: int|
        0 <= i < j < cmds.len() ==> (#[trigger] cmds[i]).name@ != (#[trigger] cmds[j]).name@
    &&& forall|i: int| 0 <= i < cmds.len() ==> !is_help((#[trigger] cmds[i]).name@)
}

/// Whether the command at `i` is the first of the table that is called
/// `name`, letter for letter.
pub open spec fn is_first_match<const N: usize, F>(
    cmds: Seq<Cmd<N, F>>,
    name: Seq<char>,
    i: int,
) -> bool {
    &&& 0 <= i < cmds.len()
    &&& cmds[i].name@ == name
    &&& forall|j: int| 0 <= j < i ==> (#[trigger] cmds[j]).name@ != name
}

/// Where the table holds the command called `name`: the place of the first
/// one with that name, `None` if there is none.
pub open spec fn find_index<const N: usize, F>(cmds: Seq<Cmd<N, F>>, name: Seq<char>) -> Option<
    int,
> {
    if exists|i: int| is_first_match(cmds, name, i) {
        Some(choose|i: int| is_first_match(cmds, name, i))
    } else {
        None
    }
}

/// A command that no earlier one shares its name with is found under its
/// name, at its own place.
pub proof fn lemma_find_registered<const N: usize, F>(cmds: Seq<Cmd<N, F>>, i: int)
    requires
        0 <= i < cmds.len(),
        forall|j: int| 0 <= j < i ==> (#[trigger] cmds[j]).name@ != cmds[i].name@,
    ensures
        find_index(cmds, cmds[i].name@) == Some(i),
{
    lemma_find_first(cmds, cmds[i].name@, i);
}

/// In a table where every command can be reached, each is found under its
/// name.
pub proof fn lemma_find_well_formed<const N: usize, F>(cmds: Seq<Cmd<N, F>>, i: int)
    requires
        well_formed(cmds),
        0 <= i < cmds.len(),
    ensures
        find_index(cmds, cmds[i].name@) == Some(i),
{
    lemma_find_registered(cmds, i);
}

/// A name that no command of the table has is not found.
pub proof fn lemma_find_absent<const N: usize, F>(cmds: Seq<Cmd<N, F>>, name: Seq<char>)
    requires
        forall|j: int| 0 <= j < cmds.len() ==> (#[trigger] cmds[j]).name@ != name,
    ensures
        find_index(cmds, name) is None,
{
}

/// What is found is a command of the table with the name asked for, and
/// nothing is found only where no command has that name.
pub proof fn lemma_find_sound<const N: usize, F>(cmds: Seq<Cmd<N, F>>, name: Seq<char>)
    ensures
        match find_index(cmds, name) {
            Some(i) => is_first_match(cmds, name, i),
            None => forall|j: int| 0 <= j < cmds.len() ==> (#[trigger] cmds[j]).name@ != name,
        },
{
    if find_index(cmds, name) is None {
        assert forall|j: int| 0 <= j < cmds.len() implies (#[trigger] cmds[j]).name@ != name by {
            if cmds[j].name@ == name {
                lemma_first_exists(cmds, name, j);
            }
        }
    }
}

/// The first match is the only place that `is_first_match` holds of.
pub proof fn lemma_find_first<const N: usize, F>(cmds: Seq<Cmd<N, F>>, name: Seq<char>, i: int)
    requires
        is_first_match(cmds, name, i),
    ensures
        find_index(cmds, name) == Some(i),
{
    let k = choose|k: int| is_first_match(cmds, name, k);
    if k < i {
        assert(cmds[k].name@ != name);
    } else if i < k {
        assert(cmds[i].name@ != name);
    }
}

/// Where some command has the name, one is the first with it.
proof fn lemma_first_exists<const N: usize, F>(cmds: Seq<Cmd<N, F>>, name: Seq<char>, j: int)
    requires
        0 <= j < cmds.len(),
        cmds[j].name@ == name,
    ensures
        exists|i: int| is_first_match(cmds, name, i),
    decreases j,
{
    if exists|k: int| 0 <= k < j && (#[trigger] cmds[k]).name@ == name {
        let k = choose|k: int| 0 <= k < j && (#[trigger] cmds[k]).name@ == name;
        lemma_first_exists(cmds, name, k);
    } else {
        assert(is_first_match(cmds, name, j));
    }
}

/// Looks `name` up in the table, from the front.
pub fn find<'c, const N: usize, F>(cmds: &'c [Cmd<N, F>], name: &str) -> (found: Option<
    &'c Cmd<N, F>,
>)
    ensures
        match find_index(cmds@, name@) {
            Some(i) => found == Some(&cmds@[i]),
            None => found is None,
        },
{
    let mut i: usize = 0;
    while i < cmds.len()
        invariant
            i <= cmds.len(),
            forall|j: int| 0 <= j < i ==> (#[trigger] cmds@[j]).name@ != name@,
        decreases cmds.len() - i,
    {
        if str_eq(cmds[i].name, name) {
            proof {
                lemma_find_first(cmds@, name@, i as int);
            }
            return Some(&cmds[i]);
        }
        i += 1;
    }
    proof {
        lemma_find_absent(cmds@, name@);
    }
    None
}

/// Checks a table before it is used: whether every command of it can be
/// reached.
pub fn validate<const N: usize, F>(cmds: &[Cmd<N, F>]) -> (ok: bool)
    ensures
        ok == well_formed(cmds@),
{
    proof {
        reveal_strlit("help");
        assert("help"@ =~= seq!['h', 'e', 'l', 'p']);
    }
    let mut j: usize = 0;
    while j < cmds.len()
        invariant
            j <= cmds.len(),
            "help"@ == seq!['h', 'e', 'l', 'p'],
            forall|a: int, b: int|
                0 <= a < b < j ==> (#[trigger] cmds@[a]).name@ != (#[trigger] cmds@[b]).name@,
            forall|a: int| 0 <= a < j ==> !is_help((#[trigger] cmds@[a]).name@),
        decreases cmds.len() - j,
    {
        if str_eq(cmds[j].name, "help") {
            return false;
        }
        let mut i: usize = 0;
        while i < j
            invariant
                i <= j < cmds.len(),
                forall|a: int| 0 <= a < i ==> (#[trigger] cmds@[a]).name@ != cmds@[j as int].name@,
            decreases j - i,
        {
            if str_eq(cmds[i].name, cmds[j].name) {
                return false;
            }
            i += 1;
        }
        j += 1;
    }
    true
}

} // verus!
