//! An executable invocation descriptor: the program to run and its argument
//! list. The embedding program turns it into an OS process; scheduling
//! strategies may append arguments before a job is admitted.

use vstd::prelude::*;

verus! {

/// Mathematical model of a [`CommandSpec`].
pub struct SpecCommandSpec {
    pub program: Seq<char>,
    pub args: Seq<Seq<char>>,
}

/// An executable invocation descriptor associated with exactly one job:
/// program path and argument list. Output redirection targets travel inside
/// the argument list (`--output_dir`); process plumbing is the embedding
/// program's concern.
#[derive(Debug, Clone, PartialEq, Eq)]
pub struct CommandSpec {
    pub program: String,
    pub args: Vec<String>,
}

impl View for CommandSpec {
    type V = SpecCommandSpec;

    open spec fn view(&self) -> SpecCommandSpec {
        SpecCommandSpec { program: self.program@, args: self.args.deep_view() }
    }
}

impl CommandSpec {
    /// A command with no arguments yet.
    pub fn new(program: String) -> (r: CommandSpec)
        ensures
            r@.program == program@,
            r@.args == Seq::<Seq<char>>::empty(),
    {
        let r = CommandSpec { program, args: Vec::new() };
        proof {
            assert(r@.args =~= Seq::<Seq<char>>::empty());
        }
        r
    }

    /// Append one argument.
    pub fn arg(&mut self, a: String)
        ensures
            final(self)@.program == old(self)@.program,
            final(self)@.args == old(self)@.args.push(a@),
    {
        let ghost prev = self.args.deep_view();
        self.args.push(a);
        proof {
            assert(self.args.deep_view() =~= prev.push(a@));
        }
    }

    /// Copy of this command; the view of the copy equals the view of the
    /// original.
    pub fn duplicate(&self) -> (r: CommandSpec)
        ensures
            r@ == self@,
    {
        let mut args: Vec<String> = Vec::new();
        let mut i: usize = 0;
        while i < self.args.len()
            invariant
                i <= self.args.len(),
                args.deep_view() == self.args.deep_view().take(i as int),
            decreases self.args.len() - i,
        {
            let ghost prev = args.deep_view();
            args.push(self.args[i].clone());
            proof {
                assert(args.deep_view() =~= prev.push(self.args.deep_view()[i as int]));
                assert(prev.push(self.args.deep_view()[i as int]) =~= self.args.deep_view().take(
                    i + 1,
                ));
            }
            i = i + 1;
        }
        let r = CommandSpec { program: self.program.clone(), args };
        proof {
            assert(self.args.deep_view().take(self.args.len() as int) =~= self.args.deep_view());
        }
        r
    }
}

/// The argument list every transcription job starts from: where to write the
/// subtitle output, its format, the language, and the source file.
pub open spec fn spec_base_transcribe_args(output_dir: Seq<char>, input_file: Seq<char>) -> Seq<
    Seq<char>,
> {
    seq![
        "--output_dir"@,
        output_dir,
        "--output_format"@,
        "srt"@,
        "--language"@,
        "fr"@,
        input_file,
    ]
}

/// The base command for one transcription job, before any strategy-appended
/// arguments: the transcriber invoked on `input_file`, writing its output
/// under `output_dir`.
pub fn base_transcribe_command(output_dir: String, input_file: String) -> (r: CommandSpec)
    ensures
        r@.program == "whisper"@,
        r@.args == spec_base_transcribe_args(output_dir@, input_file@),
{
    let mut cmd = CommandSpec::new(String::from_str("whisper"));
    cmd.arg(String::from_str("--output_dir"));
    cmd.arg(output_dir);
    cmd.arg(String::from_str("--output_format"));
    cmd.arg(String::from_str("srt"));
    cmd.arg(String::from_str("--language"));
    cmd.arg(String::from_str("fr"));
    cmd.arg(input_file);
    proof {
        assert(cmd@.args =~= spec_base_transcribe_args(output_dir@, input_file@));
    }
    cmd
}

} // verus!
