//! The command lines of the compiler and of the build tool: which argument
//! asks for what.
use vstd::prelude::*;

verus! {

/// `a` is the word `w`.
pub fn is_word(a: &String, w: &str) -> (r: bool)
    ensures
        r == (a@ == w@),
{
    *a == w.to_owned()
}

/// The options of one run of the compiler.
#[derive(Debug)]
pub struct RunContext {
    /// Colour is forced on.
    pub color: bool,
    /// Colour is forced off; this wins over `color`.
    pub lame: bool,
    /// Nothing is written.
    pub dryrun: bool,
    /// The source file.
    pub input: String,
    /// The file the page is written to.
    pub output: String,
}

/// The compiler's arguments, sorted: the flags, then the inputs and outputs.
/// Every argument after `-o` that is not a flag is an output.
#[derive(Debug)]
pub struct CompilerArgs {
    pub color: bool,
    pub lame: bool,
    pub dryrun: bool,
    pub after_o: bool,
    pub inputs: Vec<String>,
    pub outputs: Vec<String>,
}

/// The compiler's arguments as sorted values: color, lame, dryrun, whether
/// `-o` was seen, inputs and outputs.
pub open spec fn sort_compiler_args(args: Seq<Seq<char>>) -> (bool, bool, bool, bool, Seq<Seq<char>>, Seq<Seq<char>>)
    decreases args.len(),
{
    if args.len() == 0 {
        (false, false, false, false, Seq::empty(), Seq::empty())
    } else {
        let (c, l, d, o, ins, outs) = sort_compiler_args(args.drop_last());
        let a = args.last();
        if a == "-l"@ || a == "--lame"@ {
            (c, true, d, o, ins, outs)
        } else if a == "-c"@ || a == "--color"@ {
            (true, l, d, o, ins, outs)
        } else if a == "-d"@ || a == "-dryrun"@ {
            (c, l, true, o, ins, outs)
        } else if a == "-o"@ {
            (c, l, d, true, ins, outs)
        } else if o {
            (c, l, d, o, ins, outs.push(a))
        } else {
            (c, l, d, o, ins.push(a), outs)
        }
    }
}

/// The characters of each string of `v`.
pub open spec fn views(v: Seq<String>) -> Seq<Seq<char>> {
    v.map_values(|s: String| s@)
}

impl CompilerArgs {
    /// The arguments as the values `sort_compiler_args` gives.
    pub open spec fn sorted(&self) -> (bool, bool, bool, bool, Seq<Seq<char>>, Seq<Seq<char>>) {
        (self.color, self.lame, self.dryrun, self.after_o, views(self.inputs@), views(self.outputs@))
    }

    /// Sorts the compiler's arguments.
    pub fn sort(args: &Vec<String>) -> (r: Self)
        ensures
            r.sorted() == sort_compiler_args(views(args@)),
    {
        let mut r = CompilerArgs {
            color: false,
            lame: false,
            dryrun: false,
            after_o: false,
            inputs: Vec::new(),
            outputs: Vec::new(),
        };
        let mut i: usize = 0;
        while i < args.len()
            invariant
                i <= args@.len(),
                r.sorted() == sort_compiler_args(views(args@.take(i as int))),
            decreases args@.len() - i,
        {
            let a = &args[i];
            proof {
                assert(views(args@.take(i + 1)).drop_last() =~= views(args@.take(i as int)));
                assert(views(args@.take(i + 1)).last() == a@);
            }
            if is_word(a, "-l") || is_word(a, "--lame") {
                r.lame = true;
            } else if is_word(a, "-c") || is_word(a, "--color") {
                r.color = true;
            } else if is_word(a, "-d") || is_word(a, "-dryrun") {
                r.dryrun = true;
            } else if is_word(a, "-o") {
                r.after_o = true;
            } else if r.after_o {
                let ghost before = r.outputs@;
                r.outputs.push(a.clone());
                assert(views(r.outputs@) =~= views(before).push(a@));
            } else {
                let ghost before = r.inputs@;
                r.inputs.push(a.clone());
                assert(views(r.inputs@) =~= views(before).push(a@));
            }
            i += 1;
        }
        assert(args@.take(args@.len() as int) =~= args@);
        r
    }
}

impl CompilerArgs {
    /// The run these arguments ask for, where they name exactly one input and
    /// one output; else the arguments themselves, to report what is wrong.
    pub fn into_run(self) -> (r: Result<RunContext, CompilerArgs>)
        ensures
            r is Ok <==> (self.inputs@.len() == 1 && self.outputs@.len() == 1),
            r is Ok ==> ({
                let run = r->Ok_0;
                &&& run.color == self.color
                &&& run.lame == self.lame
                &&& run.dryrun == self.dryrun
                &&& run.input@ == self.inputs@[0]@
                &&& run.output@ == self.outputs@[0]@
            }),
            r is Err ==> r->Err_0 == self,
    {
        if self.inputs.len() == 1 && self.outputs.len() == 1 {
            let input = self.inputs[0].clone();
            let output = self.outputs[0].clone();
            Ok(RunContext { color: self.color, lame: self.lame, dryrun: self.dryrun, input, output })
        } else {
            Err(self)
        }
    }
}

/// Reads the compiler's command line: `-l`/`--lame`, `-c`/`--color`,
/// `-d`/`-dryrun`, then one input, and one output after `-o`.
pub fn cli(args: &Vec<String>) -> (r: Result<RunContext, CompilerArgs>)
    ensures
        ({
            let (c, l, d, o, ins, outs) = sort_compiler_args(views(args@));
            &&& r is Ok <==> (ins.len() == 1 && outs.len() == 1)
            &&& r is Ok ==> ({
                let run = r->Ok_0;
                &&& run.color == c
                &&& run.lame == l
                &&& run.dryrun == d
                &&& run.input@ == ins[0]
                &&& run.output@ == outs[0]
            })
            &&& r is Err ==> r->Err_0.sorted() == sort_compiler_args(views(args@))
        }),
{
    let sorted = CompilerArgs::sort(args);
    proof {
        assert(views(sorted.inputs@).len() == sorted.inputs@.len());
        assert(views(sorted.outputs@).len() == sorted.outputs@.len());
    }
    sorted.into_run()
}

} // verus!
