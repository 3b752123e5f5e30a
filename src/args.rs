//! Command-line arguments: the options the program understands and at
//! most one input file.
use vstd::prelude::*;
use crate::text::{chars_of, push_str, push_all, string_of};

verus! {

broadcast use vstd::string::group_string_axioms;

/// What the arguments ask for.
#[derive(Debug)]
pub struct Config {
    pub input_file: Option<String>,
    pub edit_mode: bool,
    pub show_help: bool,
    pub show_version: bool,
}

/// A configuration as plain values: input file, edit, help, version.
pub open spec fn config_view(c: Config) -> (Option<Seq<char>>, bool, bool, bool) {
    (
        match c.input_file {
            Some(f) => Some(f@),
            None => None,
        },
        c.edit_mode,
        c.show_help,
        c.show_version,
    )
}

pub open spec fn args_view(a: Seq<String>) -> Seq<Seq<char>> {
    a.map_values(|s: String| s@)
}

/// Reads the arguments from index `i` on. `first` is the first positional
/// argument seen so far and `count` how many there were.
pub open spec fn parse_go(
    args: Seq<Seq<char>>,
    i: int,
    first: Option<Seq<char>>,
    count: nat,
    edit: bool,
    help: bool,
    version: bool,
) -> Result<(Option<Seq<char>>, bool, bool, bool), Seq<char>>
    decreases args.len() - i,
{
    if i < 0 || i >= args.len() {
        if count > 1 {
            Err("too many arguments"@)
        } else {
            Ok((first, edit, help, version))
        }
    } else {
        let a = args[i];
        if a == "--help"@ || a == "-h"@ {
            parse_go(args, i + 1, first, count, edit, true, version)
        } else if a == "--version"@ || a == "-V"@ {
            parse_go(args, i + 1, first, count, edit, help, true)
        } else if a == "--edit"@ || a == "-e"@ {
            parse_go(args, i + 1, first, count, true, help, version)
        } else if a.len() > 0 && a[0] == '-' {
            Err("unknown option '"@ + a + "'"@)
        } else {
            parse_go(
                args,
                i + 1,
                if count == 0 {
                    Some(a)
                } else {
                    first
                },
                count + 1,
                edit,
                help,
                version,
            )
        }
    }
}

/// The meaning of an argument list: a configuration, or the message of the
/// first error (an unknown option, or more than one file).
pub open spec fn parse_spec(args: Seq<Seq<char>>) -> Result<(Option<Seq<char>>, bool, bool, bool), Seq<char>> {
    parse_go(args, 0, None, 0, false, false, false)
}

fn is_lit(a: &Vec<char>, lit: &str) -> (r: bool)
    ensures
        r == (a@ == lit@),
{
    let b = chars_of(lit);
    if a.len() != b.len() {
        return false;
    }
    let mut k: usize = 0;
    while k < a.len()
        invariant
            a@.len() == b@.len(),
            b@ == lit@,
            k <= a@.len(),
            forall|j: int| 0 <= j < k ==> a@[j] == b@[j],
        decreases a@.len() - k,
    {
        if a[k] != b[k] {
            return false;
        }
        k = k + 1;
    }
    assert(a@ =~= b@);
    true
}

/// Reads the arguments that follow the program's name.
pub fn parse_args(args: &[String]) -> (r: Result<Config, String>)
    ensures
        match parse_spec(args_view(args@)) {
            Ok(c) => r matches Ok(cfg) && config_view(cfg) == c,
            Err(e) => r matches Err(m) && m@ == e,
        },
{
    let ghost av = args_view(args@);
    let mut first: Option<String> = None;
    let mut count: usize = 0;
    let mut edit = false;
    let mut help = false;
    let mut version = false;
    let mut i: usize = 0;
    while i < args.len()
        invariant
            i <= args@.len(),
            count <= i,
            av == args_view(args@),
            av.len() == args@.len(),
            parse_go(
                av,
                i as int,
                match first {
                    Some(f) => Some(f@),
                    None => None,
                },
                count as nat,
                edit,
                help,
                version,
            ) == parse_spec(av),
        decreases args@.len() - i,
    {
        let a = chars_of(args[i].as_str());
        assert(av[i as int] == a@);
        if is_lit(&a, "--help") || is_lit(&a, "-h") {
            help = true;
        } else if is_lit(&a, "--version") || is_lit(&a, "-V") {
            version = true;
        } else if is_lit(&a, "--edit") || is_lit(&a, "-e") {
            edit = true;
        } else if a.len() > 0 && a[0] == '-' {
            let mut m: Vec<char> = Vec::new();
            push_str(&mut m, "unknown option '");
            push_all(&mut m, &a);
            push_str(&mut m, "'");
            return Err(string_of(&m));
        } else {
            if count == 0 {
                first = Some(args[i].clone());
            }
            count = count + 1;
        }
        i = i + 1;
    }
    if count > 1 {
        let mut m: Vec<char> = Vec::new();
        push_str(&mut m, "too many arguments");
        return Err(string_of(&m));
    }
    Ok(Config { input_file: first, edit_mode: edit, show_help: help, show_version: version })
}

} // verus!
