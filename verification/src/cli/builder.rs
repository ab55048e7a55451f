use vstd::prelude::*;

verus! {

/// What a build does with its input files.
#[derive(Debug, Clone, Copy, PartialEq, Eq, Structural)]
pub enum BuildMode {
    TranspileAndRun,
    TranspileOnly,
    RunOnly,
    ErrorCheck,
}

/// The settings of a build.
pub struct Builder {
    input_files: Vec<String>,
    mode: BuildMode,
    quiet: bool,
    max_errors: u32,
}

/// The model of a `Builder`.
pub struct BuilderView {
    pub input_files: Seq<Seq<char>>,
    pub mode: BuildMode,
    pub quiet: bool,
    pub max_errors: u32,
}

impl View for Builder {
    type V = BuilderView;

    closed spec fn view(&self) -> BuilderView {
        BuilderView {
            input_files: self.input_files@.map_values(|s: String| s@),
            mode: self.mode,
            quiet: self.quiet,
            max_errors: self.max_errors,
        }
    }
}

impl Builder {
    /// A build with no input files that transpiles only, is not quiet, and reports at most
    /// 10 errors.
    pub fn new() -> (r: Self)
        ensures
            r@ == (BuilderView {
                input_files: Seq::empty(),
                mode: BuildMode::TranspileOnly,
                quiet: false,
                max_errors: 10,
            }),
    {
        let r = Builder {
            input_files: Vec::new(),
            mode: BuildMode::TranspileOnly,
            quiet: false,
            max_errors: 10,
        };
        assert(r@.input_files =~= Seq::<Seq<char>>::empty());
        r
    }
}

} // verus!
