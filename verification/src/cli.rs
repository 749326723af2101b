//! Command-line decisions: which mode a run is in, the build flags, and
//! image references.

use vstd::prelude::*;
use vstd::string::*;
use crate::strutil::{chars_string, split_chars, split_from, str_chars, streq, string_views};

verus! {

/// Why the command line was refused.
#[derive(Debug, Clone, Copy, PartialEq, Eq, Structural)]
pub enum CliError {
    /// A flag that takes a value stood last.
    MissingFlagValue,
}

/// The inputs of a build: the build-file path and the image name and tag.
#[derive(Debug)]
pub struct BuildArgs {
    pub file: String,
    pub name: String,
    pub tag: String,
}

/// Scan the build flags from position `i` on: `-f`/`--file` and
/// `-t`/`--tag` take a value, anything else is skipped.
pub open spec fn build_args_from(
    args: Seq<Seq<char>>,
    i: int,
    file: Seq<char>,
    name: Seq<char>,
    tag: Seq<char>,
) -> Result<(Seq<char>, Seq<char>, Seq<char>), CliError>
    decreases args.len() - i,
{
    if i < 0 || i >= args.len() {
        Ok((file, name, tag))
    } else if args[i] == "-f"@ || args[i] == "--file"@ {
        if i + 1 < args.len() {
            build_args_from(args, i + 2, args[i + 1], name, tag)
        } else {
            Err(CliError::MissingFlagValue)
        }
    } else if args[i] == "-t"@ || args[i] == "--tag"@ {
        if i + 1 < args.len() {
            let parts = split_from(args[i + 1], 0, ':');
            let nm = parts[0];
            let tg = if parts.len() >= 2 {
                parts[1]
            } else {
                "latest"@
            };
            build_args_from(args, i + 2, file, nm, tg)
        } else {
            Err(CliError::MissingFlagValue)
        }
    } else {
        build_args_from(args, i + 1, file, name, tag)
    }
}

/// The build inputs of a whole command line, with the defaults
/// `ForgeFile`, `app` and `latest`.
pub open spec fn build_args_of(args: Seq<Seq<char>>) -> Result<
    (Seq<char>, Seq<char>, Seq<char>),
    CliError,
> {
    build_args_from(args, 2, "ForgeFile"@, "app"@, "latest"@)
}

/// Parse the build flags of a command line.
pub fn parse_build_args(args: &Vec<String>) -> (r: Result<BuildArgs, CliError>)
    ensures
        match r {
            Ok(b) => build_args_of(string_views(args@)) == Ok::<_, CliError>(
                (b.file@, b.name@, b.tag@),
            ),
            Err(e) => build_args_of(string_views(args@)) == Err::<
                (Seq<char>, Seq<char>, Seq<char>),
                _,
            >(e),
        },
{
    let ghost sv = string_views(args@);
    let mut file = String::from_str("ForgeFile");
    let mut name = String::from_str("app");
    let mut tag = String::from_str("latest");
    let mut i: usize = 2;
    loop
        invariant_except_break
            2 <= i,
            sv == string_views(args@),
            build_args_from(sv, i as int, file@, name@, tag@) == build_args_of(sv),
        ensures
            build_args_of(sv) == Ok::<_, CliError>((file@, name@, tag@)),
            sv == string_views(args@),
        decreases args@.len() + 2 - i,
    {
        if i >= args.len() {
            proof {
                assert(build_args_from(sv, i as int, file@, name@, tag@) == Ok::<_, CliError>(
                    (file@, name@, tag@),
                ));
            }
            break;
        }
        proof {
            assert(sv[i as int] == args@[i as int]@);
        }
        if streq(args[i].as_str(), "-f") || streq(args[i].as_str(), "--file") {
            if i + 1 >= args.len() {
                proof {
                    assert(build_args_from(sv, i as int, file@, name@, tag@) == Err::<
                        (Seq<char>, Seq<char>, Seq<char>),
                        _,
                    >(CliError::MissingFlagValue));
                }
                return Err(CliError::MissingFlagValue);
            }
            proof {
                assert(sv[i + 1 as int] == args@[i + 1 as int]@);
            }
            file = args[i + 1].clone();
            i += 2;
        } else if streq(args[i].as_str(), "-t") || streq(args[i].as_str(), "--tag") {
            if i + 1 >= args.len() {
                proof {
                    assert(build_args_from(sv, i as int, file@, name@, tag@) == Err::<
                        (Seq<char>, Seq<char>, Seq<char>),
                        _,
                    >(CliError::MissingFlagValue));
                }
                return Err(CliError::MissingFlagValue);
            }
            proof {
                assert(sv[i + 1 as int] == args@[i + 1 as int]@);
            }
            let v = str_chars(args[i + 1].as_str());
            let parts = split_chars(&v, ':');
            proof {
                assert(crate::strutil::views_of(parts@) == split_from(sv[i + 1 as int], 0, ':'));
                assert(split_from(sv[i + 1 as int], 0, ':').len() >= 1) by {
                    crate::strutil::lemma_first_at_bounds(sv[i + 1 as int], 0, ':');
                }
            }
            name = chars_string(&parts[0]);
            if parts.len() >= 2 {
                tag = chars_string(&parts[1]);
            } else {
                tag = String::from_str("latest");
                proof {
                    reveal_strlit("latest");
                }
            }
            i += 2;
        } else {
            i += 1;
        }
    }
    Ok(BuildArgs { file, name, tag })
}

/// Split `NAME[:TAG]`; a missing tag is `latest`.
pub fn parse_image_ref(image_ref: &str) -> (r: (String, String))
    ensures
        ({
            let parts = split_from(image_ref@, 0, ':');
            &&& r.0@ == parts[0]
            &&& (parts.len() >= 2 ==> r.1@ == parts[1])
            &&& (parts.len() < 2 ==> r.1@ == "latest"@)
        }),
{
    let v = str_chars(image_ref);
    let parts = split_chars(&v, ':');
    proof {
        assert(crate::strutil::views_of(parts@) == split_from(image_ref@, 0, ':'));
        assert(split_from(image_ref@, 0, ':').len() >= 1) by {
            crate::strutil::lemma_first_at_bounds(image_ref@, 0, ':');
        }
    }
    let name = chars_string(&parts[0]);
    let tag = if parts.len() >= 2 {
        chars_string(&parts[1])
    } else {
        String::from_str("latest")
    };
    (name, tag)
}

/// What a command line asks for.
#[derive(Debug)]
pub enum Dispatch {
    /// Build an image.
    Build,
    /// Run the named image.
    RunImage(String),
    /// No subcommand: start the interactive container.
    Interactive,
    /// `run` without an image: print usage and exit with failure.
    Usage,
}

/// Decide what a command line asks for: `build`, `run IMAGE`, `run`
/// without an image (usage error), or the interactive default.
pub fn dispatch_of(args: &Vec<String>) -> (r: Dispatch)
    ensures
        ({
            let sv = string_views(args@);
            match r {
                Dispatch::Build => sv.len() > 1 && sv[1] == "build"@,
                Dispatch::RunImage(image) => sv.len() > 2 && sv[1] == "run"@ && image@ == sv[2],
                Dispatch::Usage => sv.len() == 2 && sv[1] == "run"@,
                Dispatch::Interactive => sv.len() <= 1 || (sv[1] != "build"@ && sv[1]
                    != "run"@),
            }
        }),
{
    if args.len() > 1 && streq(args[1].as_str(), "build") {
        proof {
            assert(string_views(args@)[1] == args@[1]@);
        }
        return Dispatch::Build;
    }
    if args.len() > 1 && streq(args[1].as_str(), "run") {
        proof {
            assert(string_views(args@)[1] == args@[1]@);
        }
        if args.len() < 3 {
            return Dispatch::Usage;
        }
        proof {
            assert(string_views(args@)[2] == args@[2]@);
        }
        return Dispatch::RunImage(args[2].clone());
    }
    proof {
        if args@.len() > 1 {
            assert(string_views(args@)[1] == args@[1]@);
        }
    }
    Dispatch::Interactive
}

} // verus!
