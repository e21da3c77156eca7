//! Names and settings of the workflow optimisation passes.
use vstd::prelude::*;

verus! {

/// Default cap on how many nodes the parallel executor runs at once.
pub const DEFAULT_MAX_PARALLELISM: usize = 10;

/// Runs independent nodes of a workflow in parallel.
#[derive(Debug, Clone, Copy, PartialEq, Eq, Structural)]
pub struct ParallelExecutor {
    /// Most nodes run at once.
    pub max_parallelism: usize,
}

impl ParallelExecutor {
    pub fn new() -> (r: ParallelExecutor)
        ensures
            r.max_parallelism == DEFAULT_MAX_PARALLELISM,
    {
        ParallelExecutor { max_parallelism: DEFAULT_MAX_PARALLELISM }
    }

    pub fn with_max_parallelism(max_parallelism: usize) -> (r: ParallelExecutor)
        ensures
            r.max_parallelism == max_parallelism,
    {
        ParallelExecutor { max_parallelism }
    }

    pub fn id(&self) -> (r: &'static str)
        ensures
            r@ == "parallel_executor"@,
    {
        "parallel_executor"
    }

    pub fn description(&self) -> (r: &'static str)
        ensures
            r@ == "Identifies and enables parallel execution for independent nodes"@,
    {
        "Identifies and enables parallel execution for independent nodes"
    }
}

/// Merges switch/case branch nodes into their parent.
#[derive(Debug, Clone, Copy, PartialEq, Eq, Structural)]
pub struct BranchAbsorber;

impl BranchAbsorber {
    pub fn new() -> BranchAbsorber {
        BranchAbsorber
    }

    pub fn id(&self) -> (r: &'static str)
        ensures
            r@ == "branch_absorber"@,
    {
        "branch_absorber"
    }

    pub fn description(&self) -> (r: &'static str)
        ensures
            r@ == "Merges switch/case branch nodes into their parent"@,
    {
        "Merges switch/case branch nodes into their parent"
    }
}

/// Merges conditional nodes into their parents.
#[derive(Debug, Clone, Copy, PartialEq, Eq, Structural)]
pub struct ConditionalAbsorber;

impl ConditionalAbsorber {
    pub fn new() -> ConditionalAbsorber {
        ConditionalAbsorber
    }

    pub fn id(&self) -> (r: &'static str)
        ensures
            r@ == "conditional_absorber"@,
    {
        "conditional_absorber"
    }

    pub fn description(&self) -> (r: &'static str)
        ensures
            r@ == "Merges conditional nodes into their parent nodes to reduce coordination overhead"@,
    {
        "Merges conditional nodes into their parent nodes to reduce coordination overhead"
    }
}

/// Removes unreachable nodes.
#[derive(Debug, Clone, Copy, PartialEq, Eq, Structural)]
pub struct DeadCodeEliminator;

impl DeadCodeEliminator {
    pub fn new() -> DeadCodeEliminator {
        DeadCodeEliminator
    }

    pub fn id(&self) -> (r: &'static str)
        ensures
            r@ == "dead_code_eliminator"@,
    {
        "dead_code_eliminator"
    }

    pub fn description(&self) -> (r: &'static str)
        ensures
            r@ == "Removes unreachable nodes from the workflow"@,
    {
        "Removes unreachable nodes from the workflow"
    }
}

/// Batches independent HTTP calls.
#[derive(Debug, Clone, Copy, PartialEq, Eq, Structural)]
pub struct HttpCoalescer;

impl HttpCoalescer {
    pub fn new() -> HttpCoalescer {
        HttpCoalescer
    }

    pub fn id(&self) -> (r: &'static str)
        ensures
            r@ == "http_coalescer"@,
    {
        "http_coalescer"
    }

    pub fn description(&self) -> (r: &'static str)
        ensures
            r@ == "Batches independent HTTP calls into parallel requests for faster execution"@,
    {
        "Batches independent HTTP calls into parallel requests for faster execution"
    }
}

/// Finds independent sequences that can run in parallel.
#[derive(Debug, Clone, Copy, PartialEq, Eq, Structural)]
pub struct ParallelDetector;

impl ParallelDetector {
    pub fn new() -> ParallelDetector {
        ParallelDetector
    }

    pub fn id(&self) -> (r: &'static str)
        ensures
            r@ == "parallel_detector"@,
    {
        "parallel_detector"
    }

    pub fn description(&self) -> (r: &'static str)
        ensures
            r@ == "Identifies independent sequences that can be parallelized"@,
    {
        "Identifies independent sequences that can be parallelized"
    }
}

/// Finds model calls whose answers can be cached.
#[derive(Debug, Clone, Copy, PartialEq, Eq, Structural)]
pub struct SemanticCache;

impl SemanticCache {
    pub fn new() -> SemanticCache {
        SemanticCache
    }

    pub fn id(&self) -> (r: &'static str)
        ensures
            r@ == "semantic_cache"@,
    {
        "semantic_cache"
    }

    pub fn description(&self) -> (r: &'static str)
        ensures
            r@ == "Identifies cacheable LLM calls to reduce token usage and latency"@,
    {
        "Identifies cacheable LLM calls to reduce token usage and latency"
    }
}

/// Analyses workflow graphs for optimisation; it has no settings yet.
#[derive(Debug, Clone, Copy, PartialEq, Eq, Structural)]
pub struct Optimizer;

impl Optimizer {
    pub fn new() -> Optimizer {
        Optimizer
    }
}

} // verus!
