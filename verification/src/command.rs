//! The command-line surface as data.
//!
//! Two subcommands: `convert --input <path> [--output <dir>]` for one
//! file and `convert-dir --input <dir> [--output <dir>]` for a
//! directory.  Each flag also has a short form (`-i`, `-o`), the flags
//! may come in either order, and each may appear at most once.

use vstd::prelude::*;
use crate::driver::copy_bytes;

verus! {

/// One parsed command line.
pub struct Cli {
    pub command: Commands,
}

/// The two operations the command line offers.
pub enum Commands {
    /// Convert a single file.
    Convert { input: Vec<u8>, output: Option<Vec<u8>> },
    /// Convert all matching files in a directory.
    ConvertDir { input: Vec<u8>, output: Option<Vec<u8>> },
}

/// The abstract value of a parsed command line.
pub struct CliView {
    pub command: CommandsView,
}

/// The abstract value of a command.
pub enum CommandsView {
    Convert { input: Seq<u8>, output: Option<Seq<u8>> },
    ConvertDir { input: Seq<u8>, output: Option<Seq<u8>> },
}

impl View for Commands {
    type V = CommandsView;

    open spec fn view(&self) -> CommandsView {
        match self {
            Commands::Convert { input, output } => CommandsView::Convert {
                input: input@,
                output: output.deep_view(),
            },
            Commands::ConvertDir { input, output } => CommandsView::ConvertDir {
                input: input@,
                output: output.deep_view(),
            },
        }
    }
}

impl View for Cli {
    type V = CliView;

    open spec fn view(&self) -> CliView {
        CliView { command: self.command@ }
    }
}

/// The bytes of `"convert"`.
pub open spec fn word_convert() -> Seq<u8> {
    seq!['c' as u8, 'o' as u8, 'n' as u8, 'v' as u8, 'e' as u8, 'r' as u8, 't' as u8]
}

/// The bytes of `"convert-dir"`.
pub open spec fn word_convert_dir() -> Seq<u8> {
    seq![
        'c' as u8, 'o' as u8, 'n' as u8, 'v' as u8, 'e' as u8, 'r' as u8, 't' as u8,
        '-' as u8, 'd' as u8, 'i' as u8, 'r' as u8,
    ]
}

/// The bytes of `"--input"`.
pub open spec fn flag_input_long() -> Seq<u8> {
    seq!['-' as u8, '-' as u8, 'i' as u8, 'n' as u8, 'p' as u8, 'u' as u8, 't' as u8]
}

/// The bytes of `"-i"`.
pub open spec fn flag_input_short() -> Seq<u8> {
    seq!['-' as u8, 'i' as u8]
}

/// The bytes of `"--output"`.
pub open spec fn flag_output_long() -> Seq<u8> {
    seq!['-' as u8, '-' as u8, 'o' as u8, 'u' as u8, 't' as u8, 'p' as u8, 'u' as u8, 't' as u8]
}

/// The bytes of `"-o"`.
pub open spec fn flag_output_short() -> Seq<u8> {
    seq!['-' as u8, 'o' as u8]
}

/// Folds `flag value` pairs into the input and output paths.  Flags may
/// come in either order; an unknown flag, a flag without a value, or a
/// repeated flag fails the parse.
pub open spec fn spec_parse_flags(args: Seq<Seq<u8>>) -> Option<
    (Option<Seq<u8>>, Option<Seq<u8>>),
>
    decreases args.len(),
{
    if args.len() == 0 {
        Some((None, None))
    } else if args.len() == 1 {
        None
    } else {
        match spec_parse_flags(args.subrange(2, args.len() as int)) {
            None => None,
            Some(rest) => {
                if args[0] == flag_input_long() || args[0] == flag_input_short() {
                    if rest.0 is None {
                        Some((Some(args[1]), rest.1))
                    } else {
                        None
                    }
                } else if args[0] == flag_output_long() || args[0] == flag_output_short() {
                    if rest.1 is None {
                        Some((rest.0, Some(args[1])))
                    } else {
                        None
                    }
                } else {
                    None
                }
            },
        }
    }
}

/// What a whole argument list (the program name already removed) parses
/// to: a subcommand word, then its flags, the input flag required.
pub open spec fn spec_parse_cli(args: Seq<Seq<u8>>) -> Option<CliView> {
    if args.len() == 0 {
        None
    } else {
        let rest = args.subrange(1, args.len() as int);
        if args[0] == word_convert() {
            match spec_parse_flags(rest) {
                Some((Some(input), output)) => Some(
                    CliView { command: CommandsView::Convert { input, output } },
                ),
                _ => None,
            }
        } else if args[0] == word_convert_dir() {
            match spec_parse_flags(rest) {
                Some((Some(input), output)) => Some(
                    CliView { command: CommandsView::ConvertDir { input, output } },
                ),
                _ => None,
            }
        } else {
            None
        }
    }
}

/// Byte-for-byte equality of two byte strings.
pub fn eq_bytes(a: &Vec<u8>, b: &Vec<u8>) -> (r: bool)
    ensures
        r == (a@ == b@),
{
    if a.len() != b.len() {
        return false;
    }
    let mut i: usize = 0;
    while i < a.len()
        invariant
            i <= a@.len() == b@.len(),
            forall|k: int| 0 <= k < i ==> a@[k] == b@[k],
        decreases a@.len() - i,
    {
        if a[i] != b[i] {
            return false;
        }
        i = i + 1;
    }
    proof {
        assert(a@ =~= b@);
    }
    true
}

/// The bytes of `"convert"` as a vector.
fn word_convert_vec() -> (r: Vec<u8>)
    ensures
        r@ == word_convert(),
{
    let v: Vec<u8> = vec!['c' as u8, 'o' as u8, 'n' as u8, 'v' as u8, 'e' as u8, 'r' as u8,
        't' as u8];
    proof {
        assert(v@ =~= word_convert());
    }
    v
}

/// The bytes of `"convert-dir"` as a vector.
fn word_convert_dir_vec() -> (r: Vec<u8>)
    ensures
        r@ == word_convert_dir(),
{
    let v: Vec<u8> = vec![
        'c' as u8, 'o' as u8, 'n' as u8, 'v' as u8, 'e' as u8, 'r' as u8, 't' as u8,
        '-' as u8, 'd' as u8, 'i' as u8, 'r' as u8,
    ];
    proof {
        assert(v@ =~= word_convert_dir());
    }
    v
}

/// The bytes of `"--input"` as a vector.
fn flag_input_long_vec() -> (r: Vec<u8>)
    ensures
        r@ == flag_input_long(),
{
    let v: Vec<u8> = vec!['-' as u8, '-' as u8, 'i' as u8, 'n' as u8, 'p' as u8, 'u' as u8,
        't' as u8];
    proof {
        assert(v@ =~= flag_input_long());
    }
    v
}

/// The bytes of `"-i"` as a vector.
fn flag_input_short_vec() -> (r: Vec<u8>)
    ensures
        r@ == flag_input_short(),
{
    let v: Vec<u8> = vec!['-' as u8, 'i' as u8];
    proof {
        assert(v@ =~= flag_input_short());
    }
    v
}

/// The bytes of `"--output"` as a vector.
fn flag_output_long_vec() -> (r: Vec<u8>)
    ensures
        r@ == flag_output_long(),
{
    let v: Vec<u8> = vec!['-' as u8, '-' as u8, 'o' as u8, 'u' as u8, 't' as u8, 'p' as u8,
        'u' as u8, 't' as u8];
    proof {
        assert(v@ =~= flag_output_long());
    }
    v
}

/// The bytes of `"-o"` as a vector.
fn flag_output_short_vec() -> (r: Vec<u8>)
    ensures
        r@ == flag_output_short(),
{
    let v: Vec<u8> = vec!['-' as u8, 'o' as u8];
    proof {
        assert(v@ =~= flag_output_short());
    }
    v
}

/// Parses the flag pairs from `args[i..]`.
fn parse_flags(args: &Vec<Vec<u8>>, i: usize) -> (r: Option<(Option<Vec<u8>>, Option<Vec<u8>>)>)
    requires
        i <= args@.len(),
    ensures
        ({
            let s = spec_parse_flags(
                args.deep_view().subrange(i as int, args.deep_view().len() as int),
            );
            match r {
                None => s is None,
                Some(p) => s == Some((p.0.deep_view(), p.1.deep_view())),
            }
        }),
    decreases args@.len() - i,
{
    let n = args.len();
    let ghost tail = args.deep_view().subrange(i as int, args.deep_view().len() as int);
    proof {
        assert(args.deep_view().len() == args@.len());
        assert(tail.len() == args@.len() - i);
    }
    if i == n {
        proof {
            assert(tail.len() == 0);
            assert(spec_parse_flags(tail) == Some((None::<Seq<u8>>, None::<Seq<u8>>)));
            assert(None::<Vec<u8>>.deep_view() == None::<Seq<u8>>);
        }
        return Some((None, None));
    }
    if i + 1 == n {
        return None;
    }
    let rest = parse_flags(args, i + 2);
    proof {
        assert(tail.subrange(2, tail.len() as int) =~= args.deep_view().subrange(
            i as int + 2,
            args.deep_view().len() as int,
        ));
        assert(tail[0] == args.deep_view()[i as int]);
        assert(tail[1] == args.deep_view()[i as int + 1]);
    }
    let ghost sub = spec_parse_flags(tail.subrange(2, tail.len() as int));
    proof {
        assert(tail[0] == args@[i as int]@);
        assert(tail[1] == args@[i as int + 1]@);
    }
    match rest {
        None => {
            proof {
                assert(sub is None);
                assert(spec_parse_flags(tail) is None);
            }
            None
        },
        Some(p) => {
            let flag = &args[i];
            proof {
                assert(flag@ == tail[0]);
            }
            if eq_bytes(flag, &flag_input_long_vec()) || eq_bytes(flag, &flag_input_short_vec()) {
                match p.0 {
                    None => {
                        let value = copy_bytes(&args[i + 1]);
                        proof {
                            assert(value@ == tail[1]);
                            assert(spec_parse_flags(tail) == Some(
                                (Some(tail[1]), p.1.deep_view()),
                            ));
                        }
                        Some((Some(value), p.1))
                    },
                    Some(_) => None,
                }
            } else if eq_bytes(flag, &flag_output_long_vec()) || eq_bytes(
                flag,
                &flag_output_short_vec(),
            ) {
                match p.1 {
                    None => {
                        let value = copy_bytes(&args[i + 1]);
                        proof {
                            assert(value@ == tail[1]);
                            assert(spec_parse_flags(tail) == Some(
                                (p.0.deep_view(), Some(tail[1])),
                            ));
                        }
                        Some((p.0, Some(value)))
                    },
                    Some(_) => None,
                }
            } else {
                None
            }
        },
    }
}

impl Cli {
    /// Parses a whole argument list, the program name already removed.
    pub fn parse_args(args: &Vec<Vec<u8>>) -> (r: Option<Cli>)
        ensures
            match r {
                Some(c) => spec_parse_cli(args.deep_view()) == Some(c@),
                None => spec_parse_cli(args.deep_view()) is None,
            },
    {
        if args.len() == 0 {
            return None;
        }
        proof {
            assert(args.deep_view()[0] == args@[0]@);
            assert(args.deep_view().subrange(1, args.deep_view().len() as int).len()
                == args@.len() - 1);
        }
        let word = &args[0];
        let is_file = eq_bytes(word, &word_convert_vec());
        let is_dir = eq_bytes(word, &word_convert_dir_vec());
        if !is_file && !is_dir {
            return None;
        }
        match parse_flags(args, 1) {
            Some((Some(input), output)) => {
                proof {
                    let av = args.deep_view();
                    assert(spec_parse_flags(av.subrange(1, av.len() as int)) == Some(
                        (Some(input@), output.deep_view()),
                    ));
                    assert(av[0] == args@[0]@);
                }
                if is_file {
                    let c = Cli { command: Commands::Convert { input, output } };
                    proof {
                        assert(spec_parse_cli(args.deep_view()) == Some(c@));
                    }
                    Some(c)
                } else {
                    let c = Cli { command: Commands::ConvertDir { input, output } };
                    proof {
                        assert(spec_parse_cli(args.deep_view()) == Some(c@));
                    }
                    Some(c)
                }
            },
            _ => None,
        }
    }
}

} // verus!
