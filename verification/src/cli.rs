//! Command-line argument selection: each option is the value following its
//! flag, with a default when the flag is absent. Reading the process's actual
//! arguments is the unverified shell's job; it hands them in as plain strings.

use vstd::prelude::*;

verus! {

/// The string following the first occurrence of `flag` in `args`, when one
/// follows it.
pub open spec fn arg_value(args: Seq<String>, flag: Seq<char>) -> Option<Seq<char>>
    decreases args.len(),
{
    if args.len() == 0 {
        None
    } else if args[0]@ == flag {
        if args.len() >= 2 {
            Some(args[1]@)
        } else {
            None
        }
    } else {
        arg_value(args.drop_first(), flag)
    }
}

/// The value selected for `flag`: what follows it, or `default`.
pub open spec fn arg_or(args: Seq<String>, flag: Seq<char>, default: Seq<char>) -> Seq<char> {
    match arg_value(args, flag) {
        Some(v) => v,
        None => default,
    }
}

/// Whether some argument equals `name`.
pub fn find_flag(args: &Vec<String>, name: &str) -> (r: bool)
    ensures
        r <==> exists|i: int| 0 <= i < args@.len() && args@[i]@ == name@,
{
    let key: String = name.to_owned();
    let n = args.len();
    let mut i: usize = 0;
    #[verifier::loop_isolation(false)]
    while i < n
        invariant
            i <= n,
            forall|j: int| 0 <= j < i ==> (#[trigger] args@[j])@ != name@,
        decreases n - i,
    {
        if args[i] == key {
            return true;
        }
        i = i + 1;
    }
    false
}

/// The string following the first occurrence of `flag`, when one follows it.
fn find_arg(args: &Vec<String>, flag: &str) -> (r: Option<String>)
    ensures
        match r {
            Some(v) => arg_value(args@, flag@) == Some(v@),
            None => arg_value(args@, flag@) is None,
        },
{
    let key: String = flag.to_owned();
    let n = args.len();
    let mut i: usize = 0;
    proof {
        assert(args@.skip(0) =~= args@);
    }
    #[verifier::loop_isolation(false)]
    while i < n
        invariant
            i <= n,
            arg_value(args@, flag@) == arg_value(args@.skip(i as int), flag@),
        decreases n - i,
    {
        proof {
            assert(args@.skip(i as int)[0] == args@[i as int]);
            assert(args@.skip(i as int).drop_first() =~= args@.skip(i as int + 1));
        }
        if args[i] == key {
            if i + 1 < n {
                proof {
                    assert(args@.skip(i as int)[1] == args@[i as int + 1]);
                }
                return Some(args[i + 1].clone());
            }
            return None;
        }
        i = i + 1;
    }
    proof {
        assert(args@.skip(n as int) =~= Seq::<String>::empty());
    }
    None
}

/// One string option of `args`: the value after `flag`, or `default`.
fn arg_with_default(args: &Vec<String>, flag: &str, default: &str) -> (r: String)
    ensures
        r@ == arg_or(args@, flag@, default@),
{
    match find_arg(args, flag) {
        Some(v) => v,
        None => default.to_owned(),
    }
}

/// The server's configuration, as given on the command line.
pub struct Cli {
    /// The directory tree watched for changes; "." when not given.
    pub dir_watch: String,
    /// The directory static files are served from; "." when not given.
    pub dir_serve: String,
    /// The build command run on each change; empty, meaning none, when not
    /// given.
    pub cmd: String,
    /// The port the server listens on; "8080" when not given.
    pub port: String,
}

impl Cli {
    /// Selects each option from the given arguments: the value following its
    /// flag, or its default.
    pub fn parse(args: &Vec<String>) -> (c: Cli)
        ensures
            c.dir_watch@ == arg_or(args@, "-watch"@, "."@),
            c.dir_serve@ == arg_or(args@, "-serve"@, "."@),
            c.cmd@ == arg_or(args@, "-run"@, ""@),
            c.port@ == arg_or(args@, "-port"@, "8080"@),
    {
        Cli {
            dir_watch: arg_with_default(args, "-watch", "."),
            dir_serve: arg_with_default(args, "-serve", "."),
            cmd: arg_with_default(args, "-run", ""),
            port: arg_with_default(args, "-port", "8080"),
        }
    }
}

} // verus!
