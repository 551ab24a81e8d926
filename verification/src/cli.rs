//! The command line of the generator.
use crate::text;
use vstd::prelude::*;

verus! {

/// What is printed where the arguments make no sense.
pub const USAGE: &'static str = "usage: generate <module.wasm> <out_dir> [--strip-to <stripped.wasm>]";

/// What to generate.
#[derive(Debug)]
pub struct Options {
    /// The binary to read.
    pub wasm: String,
    /// The directory to write the bindings into.
    pub out_dir: String,
    /// The file to write the binary without its metadata into.
    pub strip_to: Option<String>,
}

/// The view of [`Options`].
pub struct OptionsView {
    pub wasm: Seq<char>,
    pub out_dir: Seq<char>,
    pub strip_to: Option<Seq<char>>,
}

impl View for Options {
    type V = OptionsView;

    open spec fn view(&self) -> OptionsView {
        OptionsView {
            wasm: self.wasm@,
            out_dir: self.out_dir@,
            strip_to: match self.strip_to {
                Some(s) => Some(s@),
                None => None,
            },
        }
    }
}

/// What the arguments ask for. Anything behind the fourth is ignored.
pub open spec fn options_of(args: Seq<Seq<char>>) -> Option<OptionsView> {
    if args.len() < 2 {
        None
    } else if args.len() == 2 {
        Some(OptionsView { wasm: args[0], out_dir: args[1], strip_to: None })
    } else if args.len() > 3 && args[2] == "--strip-to"@ {
        Some(OptionsView { wasm: args[0], out_dir: args[1], strip_to: Some(args[3]) })
    } else {
        None
    }
}

/// Two arguments name the binary and the directory; with the flag and a file
/// behind them the stripped binary goes into the file. What follows is ignored.
/// Less than two arguments, the flag without a file, and anything else in its
/// place make no sense.
pub proof fn law_arguments_name_what_to_do(
    wasm: Seq<char>,
    dir: Seq<char>,
    flag: Seq<char>,
    file: Seq<char>,
    rest: Seq<Seq<char>>,
)
    ensures
        options_of(Seq::<Seq<char>>::empty()) is None,
        options_of(seq![wasm]) is None,
        options_of(seq![wasm, dir]) == Some(OptionsView { wasm, out_dir: dir, strip_to: None }),
        options_of(seq![wasm, dir, flag]) is None,
        flag == "--strip-to"@ ==> options_of(seq![wasm, dir, flag, file] + rest) == Some(
            OptionsView { wasm, out_dir: dir, strip_to: Some(file) },
        ),
        flag != "--strip-to"@ ==> options_of(seq![wasm, dir, flag, file] + rest) is None,
{
}

/// What the arguments, without the name of the program, ask for; nothing, if
/// they make no sense.
pub fn parse_args(args: &Vec<String>) -> (r: Option<Options>)
    ensures
        match options_of(text::texts(args@)) {
            Some(want) => r matches Some(got) && got@ == want,
            None => r is None,
        },
{
    if args.len() < 2 {
        return None;
    }
    let strip_to: Option<String> = if args.len() == 2 {
        None
    } else if args.len() > 3 && text::same(args[2].as_str(), "--strip-to") {
        Some(args[3].clone())
    } else {
        return None;
    };
    Some(Options { wasm: args[0].clone(), out_dir: args[1].clone(), strip_to })
}

/// The files that are written into the output directory, in order, each with
/// the module that it holds: with types and without.
pub fn output_names() -> (r: [&'static str; 2])
    ensures
        r@[0]@ == "bindings.ts"@,
        r@[1]@ == "bindings.js"@,
{
    ["bindings.ts", "bindings.js"]
}

} // verus!
