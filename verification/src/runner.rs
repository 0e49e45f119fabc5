//! External commands, as data: explicit argv, never a shell string.

use vstd::prelude::*;
use crate::text::texts;

verus! {

/// The longest any command may run, in seconds.
pub const TIMEOUT_SECS: u64 = 5;

/// One bounded external command.
#[derive(Debug, Clone, PartialEq, Eq)]
pub struct CommandSpec {
    /// `argv[0]`.
    pub program: String,
    /// The arguments after it.
    pub args: Vec<String>,
    /// Environment overrides.
    pub env: Vec<(String, String)>,
    /// Seconds after which the command is given up.
    pub timeout_secs: u64,
}

/// What a `CommandSpec` stands for.
pub struct CommandModel {
    pub program: Seq<char>,
    pub args: Seq<Seq<char>>,
    pub env: Seq<(Seq<char>, Seq<char>)>,
    pub timeout_secs: u64,
}

impl View for CommandSpec {
    type V = CommandModel;

    open spec fn view(&self) -> CommandModel {
        CommandModel {
            program: self.program@,
            args: texts(self.args@),
            env: Seq::new(self.env@.len(), |i: int| (self.env@[i].0@, self.env@[i].1@)),
            timeout_secs: self.timeout_secs,
        }
    }
}

/// A command with these arguments, no environment override and the standard timeout.
pub open spec fn plain_command(program: Seq<char>, args: Seq<Seq<char>>) -> CommandModel {
    CommandModel { program, args, env: seq![], timeout_secs: TIMEOUT_SECS }
}

/// Owned copies of the given strings.
pub fn owned(strings: &[&str]) -> (r: Vec<String>)
    ensures
        texts(r@) == Seq::new(strings@.len(), |i: int| strings@[i]@),
{
    let mut out: Vec<String> = Vec::new();
    let mut i: usize = 0;
    while i < strings.len()
        invariant
            i <= strings.len(),
            out@.len() == i,
            forall|k: int| 0 <= k < i ==> #[trigger] out@[k]@ == strings@[k]@,
        decreases strings.len() - i,
    {
        out.push(strings[i].to_owned());
        i += 1;
    }
    assert(texts(out@) =~= Seq::new(strings@.len(), |i: int| strings@[i]@));
    out
}

/// The bounded command `program` with `args`.
pub fn command(program: &str, args: Vec<String>) -> (r: CommandSpec)
    ensures
        r@ == plain_command(program@, texts(args@)),
{
    let r = CommandSpec {
        program: program.to_owned(),
        args,
        env: Vec::new(),
        timeout_secs: TIMEOUT_SECS,
    };
    assert(r@.env =~= seq![]);
    r
}

/// A plain command is its program and its arguments, run with nothing in its environment changed
/// and given up after five seconds.
pub proof fn a_plain_command_changes_nothing_else(program: Seq<char>, args: Seq<Seq<char>>)
    ensures
        plain_command(program, args).program == program,
        plain_command(program, args).args == args,
        plain_command(program, args).env.len() == 0,
        plain_command(program, args).timeout_secs == 5,
{
}

/// The model of a command holds its program, each argument and each override.
pub proof fn command_models_hold_every_field(spec: CommandSpec)
    ensures
        spec@.program == spec.program@,
        spec@.args.len() == spec.args@.len(),
        forall|i: int| 0 <= i < spec.args@.len() ==> #[trigger] spec@.args[i] == spec.args@[i]@,
        spec@.env.len() == spec.env@.len(),
        forall|i: int|
            0 <= i < spec.env@.len() ==> (#[trigger] spec@.env[i]) == (
                spec.env@[i].0@,
                spec.env@[i].1@,
            ),
        spec@.timeout_secs == spec.timeout_secs,
{
}

} // verus!
