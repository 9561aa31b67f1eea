//! The server's configuration, read from its command-line arguments.
use vstd::prelude::*;

verus! {

/// Where file routes read and write.
#[derive(Clone, Debug)]
pub struct Config {
    pub directory: Option<String>,
}

/// The text of an optional string.
pub open spec fn opt_view(o: Option<String>) -> Option<Seq<char>> {
    match o {
        Some(s) => Some(s@),
        None => None,
    }
}

/// The directory that the arguments from index `i` on leave set, starting
/// from `current`: each `--directory` followed by a value sets it.
pub open spec fn directory_from(args: Seq<Seq<char>>, i: int, current: Option<Seq<char>>) -> Option<
    Seq<char>,
>
    decreases args.len() - i,
{
    if i >= args.len() {
        current
    } else if args[i] == "--directory"@ && i + 1 < args.len() {
        directory_from(args, i + 1, Some(args[i + 1]))
    } else {
        directory_from(args, i + 1, current)
    }
}

/// The directory that a command line names: the value after its last
/// `--directory` that has one. The first argument, the program, is skipped.
pub open spec fn config_directory(args: Seq<Seq<char>>) -> Option<Seq<char>> {
    directory_from(args, 1, None)
}

impl Config {
    /// Reads the configuration from a command line, program name first.
    pub fn parse_config(args: &Vec<String>) -> (r: Config)
        ensures
            opt_view(r.directory) == config_directory(args@.map_values(|a: String| a@)),
    {
        let ghost a = args@.map_values(|a: String| a@);
        let flag = "--directory".to_owned();
        let mut directory: Option<String> = None;
        let n = args.len();
        let mut i: usize = 1;
        while i < n
            invariant
                n == args@.len() == a.len(),
                forall|j: int| 0 <= j < n ==> a[j] == args@[j]@,
                flag@ == "--directory"@,
                1 <= i,
                config_directory(a) == directory_from(a, i as int, opt_view(directory)),
            decreases n - i,
        {
            if args[i] == flag && i + 1 < n {
                directory = Some(args[i + 1].clone());
            }
            i = i + 1;
        }
        Config { directory }
    }
}

} // verus!
