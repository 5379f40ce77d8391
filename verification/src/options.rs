use vstd::prelude::*;
use crate::text::string_views;

verus! {

/// Address the server listens on when none is given.
pub const DEFAULT_LISTEN: &'static str = "127.0.0.1:5532";

/// Database file used when none is given.
pub const DEFAULT_DATABASE: &'static str = "concordia.db";

/// Server settings taken from the command line.
pub struct Options {
    pub listen: String,
    pub database: String,
    pub no_seed: bool,
}

/// What the command line asks for.
pub enum Command {
    /// Run the server with these settings.
    Serve(Options),
    /// Print the usage line and stop.
    Help,
    /// Stop with this message.
    Reject(String),
}

/// A parsed command line, with every address given to `--listen` before
/// parsing stopped, in order; each must name a socket address.
pub struct ParsedCommandLine {
    pub command: Command,
    pub addresses: Vec<String>,
}

/// Model of a parsed command.
pub enum CommandSpec {
    Serve(Seq<char>, Seq<char>, bool),
    Help,
    Reject(Seq<char>),
}

/// Reads the remaining arguments from the given settings, collecting the
/// addresses passed to `--listen`.
pub open spec fn parse_from(
    args: Seq<Seq<char>>,
    listen: Seq<char>,
    database: Seq<char>,
    no_seed: bool,
    seen: Seq<Seq<char>>,
) -> (CommandSpec, Seq<Seq<char>>)
    decreases args.len(),
{
    if args.len() == 0 {
        (CommandSpec::Serve(listen, database, no_seed), seen)
    } else if args[0] == "--listen"@ {
        if args.len() < 2 {
            (CommandSpec::Reject("--listen requires an address"@), seen)
        } else {
            parse_from(args.skip(2), args[1], database, no_seed, seen.push(args[1]))
        }
    } else if args[0] == "--database"@ {
        if args.len() < 2 {
            (CommandSpec::Reject("--database requires a path"@), seen)
        } else {
            parse_from(args.skip(2), listen, args[1], no_seed, seen)
        }
    } else if args[0] == "--no-seed"@ {
        parse_from(args.skip(1), listen, database, true, seen)
    } else if args[0] == "--help"@ || args[0] == "-h"@ {
        (CommandSpec::Help, seen)
    } else {
        (CommandSpec::Reject("unknown argument: "@ + args[0]), seen)
    }
}

/// The command line as the program reads it, starting from the defaults.
pub open spec fn parse_spec(args: Seq<Seq<char>>) -> (CommandSpec, Seq<Seq<char>>) {
    parse_from(args, DEFAULT_LISTEN@, DEFAULT_DATABASE@, false, Seq::empty())
}

/// Model of a parsed command line.
pub open spec fn command_view(c: Command) -> CommandSpec {
    match c {
        Command::Serve(o) => CommandSpec::Serve(o.listen@, o.database@, o.no_seed),
        Command::Help => CommandSpec::Help,
        Command::Reject(m) => CommandSpec::Reject(m@),
    }
}

/// Parses the program arguments (without the program name): `--listen ADDR`,
/// `--database PATH`, `--no-seed`, `--help`/`-h`; later settings override
/// earlier ones, a missing value or an unknown argument stops parsing.
pub fn parse_options(args: &Vec<String>) -> (parsed: ParsedCommandLine)
    ensures
        (command_view(parsed.command), string_views(parsed.addresses@)) == parse_spec(
            string_views(args@),
        ),
{
    let ghost all = string_views(args@);
    let mut listen = String::from_str(DEFAULT_LISTEN);
    let mut database = String::from_str(DEFAULT_DATABASE);
    let mut no_seed = false;
    let mut addresses: Vec<String> = Vec::new();
    let listen_flag = String::from_str("--listen");
    let database_flag = String::from_str("--database");
    let no_seed_flag = String::from_str("--no-seed");
    let help_flag = String::from_str("--help");
    let short_help_flag = String::from_str("-h");
    let mut i: usize = 0;
    assert(all.skip(0) =~= all);
    assert(string_views(addresses@) =~= Seq::<Seq<char>>::empty());
    while i < args.len()
        invariant
            i <= args.len(),
            all == string_views(args@),
            listen_flag@ == "--listen"@,
            database_flag@ == "--database"@,
            no_seed_flag@ == "--no-seed"@,
            help_flag@ == "--help"@,
            short_help_flag@ == "-h"@,
            parse_spec(all) == parse_from(
                all.skip(i as int),
                listen@,
                database@,
                no_seed,
                string_views(addresses@),
            ),
        decreases args.len() - i,
    {
        let ghost rest = all.skip(i as int);
        assert(rest[0] == args@[i as int]@);
        let argument = &args[i];
        if *argument == listen_flag {
            if i + 1 >= args.len() {
                return ParsedCommandLine {
                    command: Command::Reject(String::from_str("--listen requires an address")),
                    addresses,
                };
            }
            assert(rest[1] == args@[i + 1]@);
            assert(rest.skip(2) =~= all.skip(i + 2));
            let ghost old_views = string_views(addresses@);
            listen = args[i + 1].clone();
            addresses.push(args[i + 1].clone());
            assert(string_views(addresses@) =~= old_views.push(args@[i + 1]@));
            i = i + 2;
        } else if *argument == database_flag {
            if i + 1 >= args.len() {
                return ParsedCommandLine {
                    command: Command::Reject(String::from_str("--database requires a path")),
                    addresses,
                };
            }
            assert(rest[1] == args@[i + 1]@);
            assert(rest.skip(2) =~= all.skip(i + 2));
            database = args[i + 1].clone();
            i = i + 2;
        } else if *argument == no_seed_flag {
            assert(rest.skip(1) =~= all.skip(i + 1));
            no_seed = true;
            i = i + 1;
        } else if *argument == help_flag || *argument == short_help_flag {
            return ParsedCommandLine { command: Command::Help, addresses };
        } else {
            let mut message = String::from_str("unknown argument: ");
            message.append(argument.as_str());
            return ParsedCommandLine { command: Command::Reject(message), addresses };
        }
    }
    assert(all.skip(i as int).len() == 0);
    ParsedCommandLine { command: Command::Serve(Options { listen, database, no_seed }), addresses }
}

/// Reading two argument lists in a row: when the first ends in a serve state,
/// the second continues from that state.
proof fn lemma_parse_append(
    a: Seq<Seq<char>>,
    b: Seq<Seq<char>>,
    listen: Seq<char>,
    database: Seq<char>,
    no_seed: bool,
    seen: Seq<Seq<char>>,
)
    requires
        parse_from(a, listen, database, no_seed, seen).0 is Serve,
    ensures
        ({
            let (c, s) = parse_from(a, listen, database, no_seed, seen);
            match c {
                CommandSpec::Serve(l, d, n) => parse_from(a + b, listen, database, no_seed, seen)
                    == parse_from(b, l, d, n, s),
                _ => true,
            }
        }),
    decreases a.len(),
{
    if a.len() == 0 {
        assert(a + b =~= b);
    } else {
        let ab = a + b;
        assert(ab[0] == a[0]);
        if a[0] == "--listen"@ {
            assert(ab[1] == a[1]);
            assert(ab.skip(2) =~= a.skip(2) + b);
            lemma_parse_append(a.skip(2), b, a[1], database, no_seed, seen.push(a[1]));
        } else if a[0] == "--database"@ {
            assert(ab[1] == a[1]);
            assert(ab.skip(2) =~= a.skip(2) + b);
            lemma_parse_append(a.skip(2), b, listen, a[1], no_seed, seen);
        } else if a[0] == "--no-seed"@ {
            assert(ab.skip(1) =~= a.skip(1) + b);
            lemma_parse_append(a.skip(1), b, listen, database, true, seen);
        }
    }
}

/// An empty command line serves on the default address with the default
/// database and seeding on.
pub proof fn lemma_parse_defaults()
    ensures
        parse_spec(Seq::empty()) == (
            CommandSpec::Serve(DEFAULT_LISTEN@, DEFAULT_DATABASE@, false),
            Seq::<Seq<char>>::empty(),
        ),
{
}

/// Later settings override earlier ones: appending `--database p`, `--listen p`
/// or `--no-seed` to a command line that serves changes exactly that setting
/// (a given address is also recorded), and appending `--help` asks for help.
pub proof fn lemma_later_settings_override(args: Seq<Seq<char>>, p: Seq<char>)
    requires
        parse_spec(args).0 is Serve,
    ensures
        ({
            let (c, seen) = parse_spec(args);
            match c {
                CommandSpec::Serve(l, d, n) => {
                    &&& parse_spec(args + seq!["--database"@, p]) == (CommandSpec::Serve(l, p, n), seen)
                    &&& parse_spec(args + seq!["--listen"@, p]) == (
                        CommandSpec::Serve(p, d, n),
                        seen.push(p),
                    )
                    &&& parse_spec(args + seq!["--no-seed"@]) == (CommandSpec::Serve(l, d, true), seen)
                    &&& parse_spec(args + seq!["--help"@]) == (CommandSpec::Help, seen)
                },
                _ => true,
            }
        }),
{
    reveal_strlit("--database");
    reveal_strlit("--listen");
    reveal_strlit("--no-seed");
    reveal_strlit("--help");
    let (c, seen) = parse_spec(args);
    match c {
        CommandSpec::Serve(l, d, n) => {
            let b1 = seq!["--database"@, p];
            let b2 = seq!["--listen"@, p];
            let b3 = seq!["--no-seed"@];
            let b4 = seq!["--help"@];
            lemma_parse_append(args, b1, DEFAULT_LISTEN@, DEFAULT_DATABASE@, false, Seq::empty());
            lemma_parse_append(args, b2, DEFAULT_LISTEN@, DEFAULT_DATABASE@, false, Seq::empty());
            lemma_parse_append(args, b3, DEFAULT_LISTEN@, DEFAULT_DATABASE@, false, Seq::empty());
            lemma_parse_append(args, b4, DEFAULT_LISTEN@, DEFAULT_DATABASE@, false, Seq::empty());
            assert("--database"@ != "--listen"@);
            assert("--no-seed"@ != "--listen"@ && "--no-seed"@ != "--database"@);
            assert("--help"@ != "--listen"@ && "--help"@ != "--database"@ && "--help"@ != "--no-seed"@);
            let e = Seq::<Seq<char>>::empty();
            assert(b1.skip(2) =~= e);
            assert(b2.skip(2) =~= e);
            assert(b3.skip(1) =~= e);
            assert(parse_from(e, l, p, n, seen) == (CommandSpec::Serve(l, p, n), seen));
            assert(parse_from(b1, l, d, n, seen) == parse_from(e, l, p, n, seen));
            assert(parse_from(e, p, d, n, seen.push(p)) == (CommandSpec::Serve(p, d, n), seen.push(p)));
            assert(parse_from(b2, l, d, n, seen) == parse_from(e, p, d, n, seen.push(p)));
            assert(parse_from(e, l, d, true, seen) == (CommandSpec::Serve(l, d, true), seen));
            assert(parse_from(b3, l, d, n, seen) == parse_from(e, l, d, true, seen));
            assert(parse_from(b4, l, d, n, seen) == (CommandSpec::Help, seen));
        },
        _ => {},
    }
}

} // verus!
