use mover::optimizers::{
    BranchAbsorber, ConditionalAbsorber, DeadCodeEliminator, HttpCoalescer, Optimizer,
    ParallelDetector, ParallelExecutor, SemanticCache,
};

#[test]
fn test_parallel_executor_creation() {
    let optimizer = ParallelExecutor::new();
    assert_eq!(optimizer.id(), "parallel_executor");
}

#[test]
fn test_parallel_executor_with_max() {
    let optimizer = ParallelExecutor::with_max_parallelism(5);
    assert_eq!(optimizer.max_parallelism, 5);
}

#[test]
fn test_optimizer_creation() {
    let _optimizer = Optimizer::new();
    assert!(true);
}

#[test]
fn parallel_executor_defaults_to_ten() {
    assert_eq!(ParallelExecutor::new().max_parallelism, 10);
}

#[test]
fn optimizer_ids() {
    assert_eq!(BranchAbsorber::new().id(), "branch_absorber");
    assert_eq!(ConditionalAbsorber::new().id(), "conditional_absorber");
    assert_eq!(DeadCodeEliminator::new().id(), "dead_code_eliminator");
    assert_eq!(HttpCoalescer::new().id(), "http_coalescer");
    assert_eq!(ParallelDetector::new().id(), "parallel_detector");
    assert_eq!(SemanticCache::new().id(), "semantic_cache");
    assert_eq!(
        DeadCodeEliminator::new().description(),
        "Removes unreachable nodes from the workflow"
    );
}
