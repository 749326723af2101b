//! The build-file grammar.
//!
//! A build file is line-oriented: blank lines and `#` comments are ignored,
//! every other line splits at its first space into a case-insensitive
//! command and its arguments.  `FROM`, `COPY`, `RUN`, `WORKDIR`, `ENV` and
//! `ENTRYPOINT` are recognised; unknown commands are skipped.  A `COPY`
//! without two tokens, an `ENV` without `=` and an `ENTRYPOINT` that is not
//! a bracketed array are parse errors.

use vstd::prelude::*;
use vstd::string::*;
use crate::strutil::{
    chars_eq_str, chars_string, find_at, first_at, lemma_first_at_bounds, split_chars,
    split_from, str_chars, string_views, strip_char, strip_char_chars, subvec, tokens_from,
    trim_chars, trim_of, upper_chars, upper_of, views_of, ws_tokens,
};

verus! {

/// One build-file instruction, with its texts as character sequences.
pub enum InstructionV {
    From { image: Seq<char> },
    Copy { src: Seq<char>, dest: Seq<char> },
    Run { command: Seq<char> },
    Workdir { path: Seq<char> },
    Env { key: Seq<char>, value: Seq<char> },
    Entrypoint { args: Seq<Seq<char>> },
}

/// One build-file instruction.
#[derive(Debug, Clone)]
pub enum Instruction {
    From { image: String },
    Copy { src: String, dest: String },
    Run { command: String },
    Workdir { path: String },
    Env { key: String, value: String },
    Entrypoint { args: Vec<String> },
}

impl View for Instruction {
    type V = InstructionV;

    open spec fn view(&self) -> InstructionV {
        match self {
            Instruction::From { image } => InstructionV::From { image: image@ },
            Instruction::Copy { src, dest } => InstructionV::Copy { src: src@, dest: dest@ },
            Instruction::Run { command } => InstructionV::Run { command: command@ },
            Instruction::Workdir { path } => InstructionV::Workdir { path: path@ },
            Instruction::Env { key, value } => InstructionV::Env { key: key@, value: value@ },
            Instruction::Entrypoint { args } => InstructionV::Entrypoint {
                args: string_views(args@),
            },
        }
    }
}

/// The views of a sequence of instructions.
pub open spec fn instr_views(s: Seq<Instruction>) -> Seq<InstructionV> {
    s.map_values(|i: Instruction| i@)
}

/// Why a line failed to parse.
#[derive(Debug, Clone, Copy, PartialEq, Eq, Structural)]
pub enum ParseError {
    /// `COPY` needs a source and a destination token.
    CopyArgs,
    /// `ENV` needs `KEY=VALUE`.
    EnvFormat,
    /// `ENTRYPOINT` needs a bracketed array of quoted strings.
    EntrypointFormat,
}

impl ParseError {
    /// A human-readable description of the error.
    pub fn message(&self) -> (r: &'static str)
    {
        match self {
            ParseError::CopyArgs => "COPY requires source and destination",
            ParseError::EnvFormat => "ENV requires KEY=VALUE format",
            ParseError::EntrypointFormat => "ENTRYPOINT requires an array such as [\"cmd\", \"arg\"]",
        }
    }
}

/// What one line contributes to the parse.
pub enum LineView {
    Skip,
    Instr(InstructionV),
    Bad(ParseError),
}

/// The entrypoint tokens: each comma piece trimmed, stripped of surrounding
/// double quotes, empty pieces discarded.
pub open spec fn entry_clean(pieces: Seq<Seq<char>>) -> Seq<Seq<char>>
    decreases pieces.len(),
{
    if pieces.len() == 0 {
        Seq::empty()
    } else {
        let h = strip_char(trim_of(pieces.first()), '"');
        let rest = entry_clean(pieces.drop_first());
        if h.len() > 0 {
            seq![h] + rest
        } else {
            rest
        }
    }
}

/// The argument vector of an `ENTRYPOINT` line, if the arguments form a
/// bracketed array.
pub open spec fn entry_args_of(args: Seq<char>) -> Option<Seq<Seq<char>>> {
    if args.len() >= 2 && args.first() == '[' && args.last() == ']' {
        Some(entry_clean(split_from(args.subrange(1, args.len() - 1), 0, ',')))
    } else {
        None
    }
}

/// What a single line of the build file means.
pub open spec fn line_of(line: Seq<char>) -> LineView {
    let t = trim_of(line);
    if t.len() == 0 || t.first() == '#' {
        LineView::Skip
    } else {
        let sp = first_at(t, 0, ' ');
        if sp >= t.len() {
            LineView::Skip
        } else {
            let cmd = upper_of(t.subrange(0, sp));
            let args = trim_of(t.subrange(sp + 1, t.len() as int));
            if cmd == "FROM"@ {
                LineView::Instr(InstructionV::From { image: args })
            } else if cmd == "COPY"@ {
                let toks = tokens_from(args, 0);
                if toks.len() < 2 {
                    LineView::Bad(ParseError::CopyArgs)
                } else {
                    LineView::Instr(InstructionV::Copy { src: toks[0], dest: toks[1] })
                }
            } else if cmd == "RUN"@ {
                LineView::Instr(InstructionV::Run { command: args })
            } else if cmd == "WORKDIR"@ {
                LineView::Instr(InstructionV::Workdir { path: args })
            } else if cmd == "ENV"@ {
                let e = first_at(args, 0, '=');
                if e >= args.len() {
                    LineView::Bad(ParseError::EnvFormat)
                } else {
                    LineView::Instr(InstructionV::Env {
                        key: args.subrange(0, e),
                        value: args.subrange(e + 1, args.len() as int),
                    })
                }
            } else if cmd == "ENTRYPOINT"@ {
                match entry_args_of(args) {
                    Some(a) => LineView::Instr(InstructionV::Entrypoint { args: a }),
                    None => LineView::Bad(ParseError::EntrypointFormat),
                }
            } else {
                LineView::Skip
            }
        }
    }
}

/// The instructions of the text from `i` on, given the instructions
/// accumulated so far, or the first parse error.
pub open spec fn parse_from(s: Seq<char>, i: int, acc: Seq<InstructionV>) -> Result<
    Seq<InstructionV>,
    ParseError,
>
    decreases s.len() + 1 - i,
    via parse_from_decreases
{
    if i < 0 || i >= s.len() {
        Ok(acc)
    } else {
        let j = first_at(s, i, '\n');
        match line_of(s.subrange(i, j)) {
            LineView::Bad(e) => Err(e),
            LineView::Skip => parse_from(s, j + 1, acc),
            LineView::Instr(x) => parse_from(s, j + 1, acc.push(x)),
        }
    }
}

#[via_fn]
proof fn parse_from_decreases(s: Seq<char>, i: int, acc: Seq<InstructionV>) {
    if 0 <= i < s.len() {
        lemma_first_at_bounds(s, i, '\n');
    }
}

/// The instructions of a whole build-file text, or its first parse error.
pub open spec fn instructions_of(s: Seq<char>) -> Result<Seq<InstructionV>, ParseError> {
    parse_from(s, 0, Seq::empty())
}

/// A parsed build file: its instructions in source order, and the directory
/// against which `COPY` sources are resolved.
pub struct Forgefile {
    pub instructions: Vec<Instruction>,
    pub context_dir: String,
}

/// What one line contributes to the parse.
pub enum LineOutcome {
    Skip,
    Instr(Instruction),
    Bad(ParseError),
}

/// Parse a single line: the command word and its arguments.
fn parse_command_line(line: &Vec<char>) -> (r: LineOutcome)
    ensures
        match r {
            LineOutcome::Skip => line_of(line@) == LineView::Skip,
            LineOutcome::Instr(x) => line_of(line@) == LineView::Instr(x@),
            LineOutcome::Bad(e) => line_of(line@) == LineView::Bad(e),
        },
{
    let t = trim_chars(line);
    if t.len() == 0 {
        return LineOutcome::Skip;
    }
    if t[0] == '#' {
        return LineOutcome::Skip;
    }
    let sp = find_at(&t, 0, ' ');
    proof {
        lemma_first_at_bounds(t@, 0, ' ');
    }
    if sp >= t.len() {
        return LineOutcome::Skip;
    }
    let cmdraw = subvec(&t, 0, sp);
    let cmd = upper_chars(&cmdraw);
    let args_raw = subvec(&t, sp + 1, t.len());
    let args = trim_chars(&args_raw);
    if chars_eq_str(&cmd, "FROM") {
        LineOutcome::Instr(Instruction::From { image: chars_string(&args) })
    } else if chars_eq_str(&cmd, "COPY") {
        let toks = ws_tokens(&args);
        if toks.len() < 2 {
            LineOutcome::Bad(ParseError::CopyArgs)
        } else {
            let src = chars_string(&toks[0]);
            let dest = chars_string(&toks[1]);
            proof {
                assert(toks@[0]@ == views_of(toks@)[0]);
                assert(toks@[1]@ == views_of(toks@)[1]);
            }
            LineOutcome::Instr(Instruction::Copy { src, dest })
        }
    } else if chars_eq_str(&cmd, "RUN") {
        LineOutcome::Instr(Instruction::Run { command: chars_string(&args) })
    } else if chars_eq_str(&cmd, "WORKDIR") {
        LineOutcome::Instr(Instruction::Workdir { path: chars_string(&args) })
    } else if chars_eq_str(&cmd, "ENV") {
        let e = find_at(&args, 0, '=');
        proof {
            lemma_first_at_bounds(args@, 0, '=');
        }
        if e >= args.len() {
            LineOutcome::Bad(ParseError::EnvFormat)
        } else {
            let key = subvec(&args, 0, e);
            let value = subvec(&args, e + 1, args.len());
            LineOutcome::Instr(Instruction::Env {
                key: chars_string(&key),
                value: chars_string(&value),
            })
        }
    } else if chars_eq_str(&cmd, "ENTRYPOINT") {
        if args.len() >= 2 && args[0] == '[' && args[args.len() - 1] == ']' {
            let inner = subvec(&args, 1, args.len() - 1);
            let pieces = split_chars(&inner, ',');
            let mut out: Vec<String> = Vec::new();
            let ghost all = views_of(pieces@);
            proof {
                assert(string_views(out@) =~= Seq::<Seq<char>>::empty());
                assert(all.skip(0) =~= all);
            }
            let mut k: usize = 0;
            while k < pieces.len()
                invariant
                    k <= pieces@.len(),
                    all == views_of(pieces@),
                    entry_clean(all) == string_views(out@) + entry_clean(all.skip(k as int)),
                decreases pieces@.len() - k,
            {
                let p1 = trim_chars(&pieces[k]);
                let p2 = strip_char_chars(&p1, '"');
                proof {
                    assert(all.skip(k as int).first() == all[k as int]);
                    assert(all.skip(k as int).drop_first() =~= all.skip(k + 1 as int));
                }
                if p2.len() > 0 {
                    let piece = chars_string(&p2);
                    proof {
                        assert(string_views(out@.push(piece)) =~= string_views(out@)
                            + seq![piece@]);
                        assert(string_views(out@) + entry_clean(all.skip(k as int))
                            =~= string_views(out@.push(piece)) + entry_clean(
                            all.skip(k + 1 as int),
                        ));
                    }
                    out.push(piece);
                }
                k += 1;
            }
            proof {
                assert(all.skip(pieces@.len() as int) =~= Seq::<Seq<char>>::empty());
                assert(entry_clean(Seq::<Seq<char>>::empty()) =~= Seq::<Seq<char>>::empty());
                assert(string_views(out@) + Seq::<Seq<char>>::empty() =~= string_views(out@));
            }
            LineOutcome::Instr(Instruction::Entrypoint { args: out })
        } else {
            LineOutcome::Bad(ParseError::EntrypointFormat)
        }
    } else {
        proof {
            reveal_strlit("FROM");
            reveal_strlit("COPY");
            reveal_strlit("RUN");
            reveal_strlit("WORKDIR");
            reveal_strlit("ENV");
            reveal_strlit("ENTRYPOINT");
        }
        LineOutcome::Skip
    }
}

impl Forgefile {
    /// Parse a build-file text.  On success the instructions are exactly
    /// what the grammar assigns to the text; the first bad line is reported
    /// as the error.
    pub fn parse(content: &str, context_dir: &str) -> (r: Result<Forgefile, ParseError>)
        ensures
            match r {
                Ok(f) => instructions_of(content@) == Ok::<_, ParseError>(
                    instr_views(f.instructions@),
                ) && f.context_dir@ == context_dir@,
                Err(e) => instructions_of(content@) == Err::<Seq<InstructionV>, _>(e),
            },
    {
        let v = str_chars(content);
        let mut instrs: Vec<Instruction> = Vec::new();
        let mut i: usize = 0;
        proof {
            assert(instr_views(instrs@) =~= Seq::<InstructionV>::empty());
        }
        loop
            invariant_except_break
                v@ == content@,
                i <= v@.len() + 1,
                parse_from(v@, i as int, instr_views(instrs@)) == instructions_of(content@),
            ensures
                instructions_of(content@) == Ok::<_, ParseError>(instr_views(instrs@)),
            decreases v@.len() + 1 - i,
        {
            if i >= v.len() {
                proof {
                    assert(parse_from(v@, i as int, instr_views(instrs@))
                        == Ok::<_, ParseError>(instr_views(instrs@)));
                }
                break;
            }
            proof {
                lemma_first_at_bounds(v@, i as int, '\n');
            }
            let j = find_at(&v, i, '\n');
            let line = subvec(&v, i, j);
            let ghost acc0 = instr_views(instrs@);
            match parse_command_line(&line) {
                LineOutcome::Bad(e) => {
                    proof {
                        assert(parse_from(v@, i as int, acc0) == Err::<Seq<InstructionV>, _>(e));
                    }
                    return Err(e);
                },
                LineOutcome::Skip => {
                    proof {
                        assert(parse_from(v@, i as int, acc0)
                            == parse_from(v@, j as int + 1, acc0));
                    }
                    if j >= v.len() {
                        proof {
                            assert(parse_from(v@, j as int + 1, acc0)
                                == Ok::<_, ParseError>(acc0));
                        }
                        break;
                    }
                    i = j + 1;
                },
                LineOutcome::Instr(x) => {
                    proof {
                        assert(instr_views(instrs@.push(x)) =~= acc0.push(x@));
                        assert(parse_from(v@, i as int, acc0)
                            == parse_from(v@, j as int + 1, acc0.push(x@)));
                    }
                    instrs.push(x);
                    if j >= v.len() {
                        proof {
                            assert(parse_from(v@, j as int + 1, instr_views(instrs@))
                                == Ok::<_, ParseError>(instr_views(instrs@)));
                        }
                        break;
                    }
                    i = j + 1;
                },
            }
        }
        Ok(Forgefile { instructions: instrs, context_dir: String::from_str(context_dir) })
    }
}

} // verus!
