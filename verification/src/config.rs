//! The compiler's configuration, checked and completed from its command-line arguments.
use crate::text::join_str;
use vstd::prelude::*;

verus! {

/// The target machine.
#[allow(non_camel_case_types)]
#[derive(Debug, Clone, Copy, PartialEq, Eq, Structural)]
pub enum Target {
    x86,
}

/// How far the compiler goes.
#[derive(Debug, Clone, Copy, PartialEq, Eq, Structural)]
pub enum Action {
    /// Emit the intermediate representation.
    EmitIr,
    /// Compile to assembly.
    EmitAsm,
    /// Compile and assemble, but do not link.
    CompileOnly,
    /// Compile, assemble and link.
    AssembleAndLink,
}

/// The command-line arguments as given.
#[derive(Debug)]
pub struct Args {
    pub target: Option<Target>,
    pub input: String,
    pub output: Option<String>,
    pub verbose: bool,
    /// `-E`: emit IR, do not compile, assemble, or link.
    pub emit_ir: bool,
    /// `-S`: compile, do not assemble or link.
    pub emit_asm: bool,
    /// `-c`: compile and assemble, do not link.
    pub compile_only: bool,
    /// `--no-regalloc`: skip register allocation; only valid with `-S`.
    pub no_regalloc: bool,
}

/// The configuration that the compiler runs with.
#[derive(Debug)]
pub struct Config {
    pub target: Target,
    pub input: String,
    pub output: String,
    pub action: Action,
    pub verbose: bool,
    pub no_regalloc: bool,
}

/// Why arguments were rejected.
#[derive(Debug, Clone, Copy, PartialEq, Eq, Structural)]
pub enum ConfigError {
    /// More than one of `-E`, `-S` and `-c` was given.
    MultipleActions,
    /// `--no-regalloc` was given without `-S`.
    NoRegallocWithoutAsm,
}

/// The action that the flags ask for; at most one of them may be given.
pub open spec fn chosen_action(emit_ir: bool, emit_asm: bool, compile_only: bool) -> Result<Action, ConfigError> {
    if (emit_ir && emit_asm) || (emit_ir && compile_only) || (emit_asm && compile_only) {
        Err(ConfigError::MultipleActions)
    } else if emit_ir {
        Ok(Action::EmitIr)
    } else if emit_asm {
        Ok(Action::EmitAsm)
    } else if compile_only {
        Ok(Action::CompileOnly)
    } else {
        Ok(Action::AssembleAndLink)
    }
}

/// The position of the last `.` in `s`, if any.
pub open spec fn last_dot(s: Seq<char>) -> Option<int>
    decreases s.len(),
{
    if s.len() == 0 {
        None
    } else if s.last() == '.' {
        Some(s.len() - 1)
    } else {
        last_dot(s.drop_last())
    }
}

proof fn lemma_last_dot_bound(s: Seq<char>)
    ensures
        last_dot(s) matches Some(i) ==> 0 <= i < s.len() && s[i] == '.',
    decreases s.len(),
{
    if s.len() > 0 && s.last() != '.' {
        lemma_last_dot_bound(s.drop_last());
    }
}

/// The extension of the file that an action writes.
pub open spec fn extension(action: Action) -> Seq<char> {
    match action {
        Action::EmitIr => seq!['.', 'i', 'r'],
        Action::EmitAsm => seq!['.', 's'],
        Action::CompileOnly => seq!['.', 'o'],
        Action::AssembleAndLink => Seq::empty(),
    }
}

/// The output file when none is given: the input up to its last `.`, with the action's
/// extension.
pub open spec fn default_output(input: Seq<char>, action: Action) -> Seq<char> {
    let base = match last_dot(input) {
        Some(i) => input.subrange(0, i),
        None => input,
    };
    base + extension(action)
}

/// The position of the last `.` in `s`.
fn find_last_dot(s: &str) -> (r: Option<usize>)
    ensures
        match last_dot(s@) {
            Some(i) => r == Some(i as usize),
            None => r is None,
        },
{
    let mut i = s.unicode_len();
    proof {
        assert(s@.subrange(0, i as int) =~= s@);
    }
    while i > 0
        invariant
            i <= s@.len(),
            last_dot(s@) == last_dot(s@.subrange(0, i as int)),
        decreases i,
    {
        proof {
            assert(s@.subrange(0, i as int).drop_last() =~= s@.subrange(0, i - 1));
        }
        if s.get_char(i - 1) == '.' {
            return Some(i - 1);
        }
        i -= 1;
    }
    None
}

/// The output file for `input` when none is given (see `default_output`).
pub fn default_output_for(input: &str, action: Action) -> (r: String)
    ensures
        r@ == default_output(input@, action),
{
    let n = input.unicode_len();
    let end = match find_last_dot(input) {
        Some(i) => i,
        None => n,
    };
    proof {
        lemma_last_dot_bound(input@);
        if last_dot(input@) is None {
            assert(input@.subrange(0, input@.len() as int) =~= input@);
        }
    }
    let base = input.substring_char(0, end);
    let ext = match action {
        Action::EmitIr => ".ir",
        Action::EmitAsm => ".s",
        Action::CompileOnly => ".o",
        Action::AssembleAndLink => "",
    };
    proof {
        reveal_strlit(".ir");
        reveal_strlit(".s");
        reveal_strlit(".o");
        reveal_strlit("");
        assert(ext@ =~= extension(action));
    }
    join_str(base, ext)
}

/// Checks the arguments and completes them into a configuration: at most one action flag,
/// `x86` unless another target is given, the output named after the input unless given, and
/// `--no-regalloc` only with `-S`.
pub fn validate_config(args: Args) -> (r: Result<Config, ConfigError>)
    ensures
        match chosen_action(args.emit_ir, args.emit_asm, args.compile_only) {
            Err(e) => r == Err::<Config, ConfigError>(e),
            Ok(action) => if args.no_regalloc && action != Action::EmitAsm {
                r == Err::<Config, ConfigError>(ConfigError::NoRegallocWithoutAsm)
            } else {
                r matches Ok(c) && c.action == action && c.target == (match args.target {
                    Some(t) => t,
                    None => Target::x86,
                }) && c.input@ == args.input@ && c.output@ == (match args.output {
                    Some(o) => o@,
                    None => default_output(args.input@, action),
                }) && c.verbose == args.verbose && c.no_regalloc == args.no_regalloc
            },
        },
{
    let mut action_opt: Option<Action> = None;
    if args.emit_ir {
        action_opt = Some(Action::EmitIr);
    }
    if args.emit_asm {
        if action_opt.is_some() {
            return Err(ConfigError::MultipleActions);
        }
        action_opt = Some(Action::EmitAsm);
    }
    if args.compile_only {
        if action_opt.is_some() {
            return Err(ConfigError::MultipleActions);
        }
        action_opt = Some(Action::CompileOnly);
    }
    let action = match action_opt {
        Some(a) => a,
        None => Action::AssembleAndLink,
    };
    let target = match args.target {
        Some(t) => t,
        None => Target::x86,
    };
    let input = args.input;
    let output = match args.output {
        Some(o) => o,
        None => default_output_for(input.as_str(), action),
    };
    let verbose = args.verbose;
    let no_regalloc = args.no_regalloc;
    if no_regalloc && action != Action::EmitAsm {
        return Err(ConfigError::NoRegallocWithoutAsm);
    }
    Ok(Config { target, input, output, action, verbose, no_regalloc })
}

} // verus!
