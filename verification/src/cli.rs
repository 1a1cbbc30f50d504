//! The command line: which arguments are switches, and which name inputs.
//!
//! Arguments are taken as bytes, the program's own name left out. A switch is
//! an argument of more than one byte that begins with a hyphen and stands
//! before any `--`.

use vstd::prelude::*;

verus! {

/// The byte `-`.
pub const HYPHEN: u8 = 45;

/// The text `-h`.
pub open spec fn help_short() -> Seq<u8> {
    seq![45u8, 104u8]
}

/// The text `--help`.
pub open spec fn help_long() -> Seq<u8> {
    seq![45u8, 45u8, 104u8, 101u8, 108u8, 112u8]
}

/// The text `-v`.
pub open spec fn version_short() -> Seq<u8> {
    seq![45u8, 118u8]
}

/// The text `--version`.
pub open spec fn version_long() -> Seq<u8> {
    seq![45u8, 45u8, 118u8, 101u8, 114u8, 115u8, 105u8, 111u8, 110u8]
}

/// The text `--`.
pub open spec fn end_of_switches() -> Seq<u8> {
    seq![45u8, 45u8]
}

/// What one argument is.
#[derive(Clone, Copy, Debug, PartialEq, Eq, Structural)]
pub enum Argument {
    /// `-h` or `--help`.
    Help,
    /// `-v` or `--version`.
    Version,
    /// `--`: no switch follows.
    EndOfSwitches,
    /// A switch that is not known.
    Invalid,
    /// The name of an input.
    Input,
}

/// An input to reverse.
#[derive(Clone, Copy, Debug, PartialEq, Eq, Structural)]
pub enum Designator {
    /// Standard input, written `-`.
    StandardInput,
    /// The file that the argument at this index names.
    Path(usize),
}

/// What the command line asks for.
#[derive(Debug, PartialEq, Eq)]
pub enum Invocation {
    /// Print the usage text.
    Help,
    /// Print the version text.
    Version,
    /// The argument at this index is an unknown switch.
    Invalid(usize),
    /// Reverse these inputs, in this order.
    Reverse(Vec<Designator>),
}

/// The value of an `Invocation`.
pub ghost enum Outcome {
    Help,
    Version,
    Invalid(int),
    Reverse(Seq<Designator>),
}

impl View for Invocation {
    type V = Outcome;

    open spec fn view(&self) -> Outcome {
        match self {
            Invocation::Help => Outcome::Help,
            Invocation::Version => Outcome::Version,
            Invocation::Invalid(index) => Outcome::Invalid(*index as int),
            Invocation::Reverse(inputs) => Outcome::Reverse(inputs@),
        }
    }
}

/// What `arg` is, given whether switches are still looked for.
pub open spec fn classify(arg: Seq<u8>, switches: bool) -> Argument {
    if switches && arg.len() > 1 && arg[0] == HYPHEN {
        if arg == help_short() || arg == help_long() {
            Argument::Help
        } else if arg == version_short() || arg == version_long() {
            Argument::Version
        } else if arg == end_of_switches() {
            Argument::EndOfSwitches
        } else {
            Argument::Invalid
        }
    } else {
        Argument::Input
    }
}

/// The input that the argument `arg` at `index` names: standard input for a
/// lone hyphen, else the file of that name.
pub open spec fn designates(arg: Seq<u8>, index: int) -> Designator {
    if arg == seq![HYPHEN] {
        Designator::StandardInput
    } else {
        Designator::Path(index as usize)
    }
}

/// What the arguments from `index` on ask for, with `inputs` named before
/// them. The first help, version or unknown switch decides; where no input is
/// named, standard input is read.
pub open spec fn parse_from(
    args: Seq<Seq<u8>>,
    index: int,
    switches: bool,
    inputs: Seq<Designator>,
) -> Outcome
    decreases args.len() - index,
{
    if index < 0 || index >= args.len() {
        Outcome::Reverse(
            if inputs.len() == 0 {
                seq![Designator::StandardInput]
            } else {
                inputs
            },
        )
    } else {
        match classify(args[index], switches) {
            Argument::Help => Outcome::Help,
            Argument::Version => Outcome::Version,
            Argument::Invalid => Outcome::Invalid(index),
            Argument::EndOfSwitches => parse_from(args, index + 1, false, inputs),
            Argument::Input => parse_from(
                args,
                index + 1,
                switches,
                inputs.push(designates(args[index], index)),
            ),
        }
    }
}

/// What the whole command line asks for.
pub open spec fn parse(args: Seq<Seq<u8>>) -> Outcome {
    parse_from(args, 0, true, Seq::empty())
}

/// Whether `arg` holds exactly the bytes of `text`.
fn same_bytes(arg: &[u8], text: &Vec<u8>) -> (same: bool)
    ensures
        same == (arg@ == text@),
{
    if arg.len() != text.len() {
        return false;
    }
    let mut i: usize = 0;
    while i < arg.len()
        invariant
            i <= arg@.len() == text@.len(),
            forall|k: int| 0 <= k < i ==> arg@[k] == text@[k],
        decreases arg.len() - i,
    {
        if arg[i] != text[i] {
            return false;
        }
        i += 1;
    }
    assert(arg@ =~= text@);
    true
}

/// Says what one argument is.
pub fn classify_argument(arg: &[u8], switches: bool) -> (kind: Argument)
    ensures
        kind == classify(arg@, switches),
{
    if switches && arg.len() > 1 && arg[0] == HYPHEN {
        let short_help: Vec<u8> = vec![45u8, 104u8];
        let long_help: Vec<u8> = vec![45u8, 45u8, 104u8, 101u8, 108u8, 112u8];
        let short_version: Vec<u8> = vec![45u8, 118u8];
        let long_version: Vec<u8> = vec![45u8, 45u8, 118u8, 101u8, 114u8, 115u8, 105u8, 111u8, 110u8];
        let separator: Vec<u8> = vec![45u8, 45u8];
        assert(short_help@ =~= help_short());
        assert(long_help@ =~= help_long());
        assert(short_version@ =~= version_short());
        assert(long_version@ =~= version_long());
        assert(separator@ =~= end_of_switches());
        if same_bytes(arg, &short_help) || same_bytes(arg, &long_help) {
            Argument::Help
        } else if same_bytes(arg, &short_version) || same_bytes(arg, &long_version) {
            Argument::Version
        } else if same_bytes(arg, &separator) {
            Argument::EndOfSwitches
        } else {
            Argument::Invalid
        }
    } else {
        Argument::Input
    }
}

/// Says which input the argument at `index` names.
pub fn designator(arg: &[u8], index: usize) -> (input: Designator)
    ensures
        input == designates(arg@, index as int),
{
    if arg.len() == 1 && arg[0] == HYPHEN {
        assert(arg@ =~= seq![HYPHEN]);
        Designator::StandardInput
    } else {
        Designator::Path(index)
    }
}

/// Reads the command line, the program's own name left out.
pub fn parse_arguments(args: &Vec<Vec<u8>>) -> (invocation: Invocation)
    ensures
        invocation@ == parse(args@.map_values(|arg: Vec<u8>| arg@)),
{
    let ghost texts = args@.map_values(|arg: Vec<u8>| arg@);
    let mut inputs: Vec<Designator> = Vec::new();
    let mut switches = true;
    let mut index: usize = 0;
    while index < args.len()
        invariant
            index <= args@.len(),
            texts == args@.map_values(|arg: Vec<u8>| arg@),
            parse_from(texts, index as int, switches, inputs@) == parse(texts),
        decreases args.len() - index,
    {
        let arg = args[index].as_slice();
        assert(texts[index as int] == arg@);
        match classify_argument(arg, switches) {
            Argument::Help => {
                return Invocation::Help;
            },
            Argument::Version => {
                return Invocation::Version;
            },
            Argument::Invalid => {
                return Invocation::Invalid(index);
            },
            Argument::EndOfSwitches => {
                switches = false;
            },
            Argument::Input => {
                inputs.push(designator(arg, index));
            },
        }
        index += 1;
    }
    if inputs.len() == 0 {
        inputs.push(Designator::StandardInput);
        assert(inputs@ =~= seq![Designator::StandardInput]);
    }
    Invocation::Reverse(inputs)
}

} // verus!
