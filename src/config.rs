//! Options of a compiler run, as the driver hands them over.
use vstd::prelude::*;

verus! {

/// After which stage a run stops. Later stages come later in this list.
#[derive(Clone, Copy, Debug, PartialEq, Eq, Structural)]
pub enum EarlyExitUpTo {
    Initialize,
    Flatten,
    AbstractTypecheck,
    Lint,
    Instantiate,
    CodeGen,
}

pub open spec fn stage_rank(s: EarlyExitUpTo) -> int {
    match s {
        EarlyExitUpTo::Initialize => 0,
        EarlyExitUpTo::Flatten => 1,
        EarlyExitUpTo::AbstractTypecheck => 2,
        EarlyExitUpTo::Lint => 3,
        EarlyExitUpTo::Instantiate => 4,
        EarlyExitUpTo::CodeGen => 5,
    }
}

impl EarlyExitUpTo {
    fn rank(self) -> (r: u8)
        ensures
            r == stage_rank(self),
    {
        match self {
            EarlyExitUpTo::Initialize => 0,
            EarlyExitUpTo::Flatten => 1,
            EarlyExitUpTo::AbstractTypecheck => 2,
            EarlyExitUpTo::Lint => 3,
            EarlyExitUpTo::Instantiate => 4,
            EarlyExitUpTo::CodeGen => 5,
        }
    }

    /// Whether a run that stops after `self` still runs `stage`.
    pub fn runs(self, stage: EarlyExitUpTo) -> (r: bool)
        ensures
            r == (stage_rank(stage) <= stage_rank(self)),
    {
        stage.rank() <= self.rank()
    }
}

pub struct ConfigStruct {
    pub use_lsp: bool,
    pub lsp_debug_mode: bool,
    pub lsp_port: u16,
    pub codegen: bool,
    pub debug_print_module_contents: bool,
    pub debug_print_latency_graph: bool,
    pub debug_whitelist: Option<Vec<String>>,
    pub codegen_module_and_dependencies_one_file: Option<String>,
    pub early_exit: EarlyExitUpTo,
    pub use_color: bool,
    pub files: Vec<String>,
}

} // verus!
