//! Commands to run and what came of them, as plain values. Running a
//! command is left to the caller.

use crate::path::texts;
use vstd::prelude::*;
use vstd::string::*;

verus! {

/// What a finished command left behind: its exit code, where it exited by
/// itself, and what it wrote.
#[derive(Debug)]
pub struct CmdOutput {
    status: Option<i32>,
    stdout: String,
    stderr: String,
}

impl CmdOutput {
    /// The exit code, where the command exited by itself.
    pub closed spec fn spec_status(&self) -> Option<i32> {
        self.status
    }

    /// What the command wrote to its output.
    pub closed spec fn spec_stdout(&self) -> Seq<char> {
        self.stdout@
    }

    /// What the command wrote to its error output.
    pub closed spec fn spec_stderr(&self) -> Seq<char> {
        self.stderr@
    }

    /// What a command left behind.
    pub fn new(status: Option<i32>, stdout: String, stderr: String) -> (r: CmdOutput)
        ensures
            r.spec_status() == status,
            r.spec_stdout() == stdout@,
            r.spec_stderr() == stderr@,
    {
        CmdOutput { status, stdout, stderr }
    }

    /// The exit code, where the command exited by itself.
    #[verifier::when_used_as_spec(spec_status)]
    pub fn status(&self) -> (r: Option<i32>)
        ensures
            r == self.spec_status(),
    {
        self.status
    }

    /// What the command wrote to its output.
    pub fn stdout(&self) -> (r: &str)
        ensures
            r@ == self.spec_stdout(),
    {
        self.stdout.as_str()
    }

    /// What the command wrote to its error output.
    pub fn stderr(&self) -> (r: &str)
        ensures
            r@ == self.spec_stderr(),
    {
        self.stderr.as_str()
    }

    /// Whether the command exited with code 0.
    pub fn success(&self) -> (r: bool)
        ensures
            r == (self.spec_status() == Some(0i32)),
    {
        match self.status {
            Some(code) => code == 0,
            None => false,
        }
    }
}

/// A command to run: the program, its arguments, the directory to run it
/// in, and whether its output is kept from the terminal.
#[derive(Debug)]
pub struct Cmd {
    name: String,
    args: Vec<String>,
    current_dir: Option<String>,
    hide_stdout: bool,
}

/// The mathematical value of a [`Cmd`].
pub ghost struct CmdView {
    pub name: Seq<char>,
    pub args: Seq<Seq<char>>,
    pub current_dir: Option<Seq<char>>,
    pub hide_stdout: bool,
}

impl View for Cmd {
    type V = CmdView;

    closed spec fn view(&self) -> CmdView {
        CmdView {
            name: self.name@,
            args: texts(self.args@),
            current_dir: match self.current_dir {
                Some(d) => Some(d@),
                None => None,
            },
            hide_stdout: self.hide_stdout,
        }
    }
}

/// The texts of a list of string slices.
pub open spec fn slice_texts(v: Seq<&str>) -> Seq<Seq<char>> {
    v.map_values(|s: &str| s@)
}

impl Cmd {
    /// The command `cmd_name` with `args`, run where the caller stands, its
    /// output shown.
    pub fn new(cmd_name: &str, args: &[&str]) -> (r: Cmd)
        ensures
            r@ == (CmdView {
                name: cmd_name@,
                args: slice_texts(args@),
                current_dir: None,
                hide_stdout: false,
            }),
    {
        let mut owned: Vec<String> = Vec::new();
        let mut i: usize = 0;
        while i < args.len()
            invariant
                i <= args.len(),
                texts(owned@) == slice_texts(args@).take(i as int),
            decreases args.len() - i,
        {
            let arg = String::from_str(args[i]);
            proof {
                let all = slice_texts(args@);
                assert(all[i as int] == arg@);
                assert(texts(owned@.push(arg)) =~= texts(owned@).push(arg@));
                assert(all.take(i as int).push(all[i as int]) =~= all.take(i + 1));
            }
            owned.push(arg);
            i = i + 1;
        }
        proof {
            assert(slice_texts(args@).take(i as int) =~= slice_texts(args@));
        }
        Cmd { name: String::from_str(cmd_name), args: owned, current_dir: None, hide_stdout: false }
    }

    /// Sets the directory to run the command in.
    pub fn with_current_dir(&mut self, dir: &str) -> (r: &mut Cmd)
        ensures
            (*r)@ == (CmdView { current_dir: Some(dir@), ..old(self)@ }),
            *final(self) == *final(r),
    {
        self.current_dir = Some(String::from_str(dir));
        self
    }

    /// Keeps the command's output from the terminal.
    pub fn hide_stdout(&mut self) -> (r: &mut Cmd)
        ensures
            (*r)@ == (CmdView { hide_stdout: true, ..old(self)@ }),
            *final(self) == *final(r),
    {
        self.hide_stdout = true;
        self
    }

    /// The program.
    pub fn name(&self) -> (r: &str)
        ensures
            r@ == self@.name,
    {
        self.name.as_str()
    }

    /// The arguments.
    pub fn args(&self) -> (r: &Vec<String>)
        ensures
            texts(r@) == self@.args,
    {
        &self.args
    }

    /// The directory to run the command in, where one is set.
    pub fn current_dir(&self) -> (r: Option<&str>)
        ensures
            r.is_some() == self@.current_dir.is_some(),
            r.is_some() ==> r.unwrap()@ == self@.current_dir.unwrap(),
    {
        match &self.current_dir {
            Some(d) => Some(d.as_str()),
            None => None,
        }
    }

    /// Whether the command's output is kept from the terminal.
    pub fn is_stdout_hidden(&self) -> (r: bool)
        ensures
            r == self@.hide_stdout,
    {
        self.hide_stdout
    }
}

/// `words` with a space before each.
pub open spec fn spaced(words: Seq<Seq<char>>) -> Seq<char>
    decreases words.len(),
{
    if words.len() == 0 {
        Seq::empty()
    } else {
        spaced(words.drop_last()) + " "@ + words.last()
    }
}

impl Cmd {
    /// The command as it is announced before it runs: the program and its
    /// arguments, with spaces between them.
    pub fn command_line(&self) -> (r: String)
        ensures
            r@ == self@.name + spaced(self@.args),
    {
        let ghost args = texts(self.args@);
        let mut line = self.name.clone();
        let mut i: usize = 0;
        proof {
            assert(args.take(0) =~= Seq::<Seq<char>>::empty());
            assert(self@.name + Seq::<char>::empty() =~= self@.name);
        }
        while i < self.args.len()
            invariant
                i <= self.args.len(),
                args == texts(self.args@),
                line@ == self.name@ + spaced(args.take(i as int)),
            decreases self.args.len() - i,
        {
            let ghost before = line@;
            proof {
                assert(args.take(i + 1).drop_last() =~= args.take(i as int));
                assert(args.take(i + 1).last() == self.args[i as int]@);
            }
            line.append(" ");
            line.append(self.args[i].as_str());
            proof {
                assert(line@ =~= self.name@ + spaced(args.take(i + 1)));
            }
            i = i + 1;
        }
        proof {
            assert(args.take(i as int) =~= args);
        }
        line
    }
}

} // verus!
