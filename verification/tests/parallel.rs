use omni_runner::models::{PipelineStep, StepType};
use omni_runner::pipeline::parallel::order_results;
use omni_runner::pipeline::{BatchStep, DagValidator, ParallelEngine};

fn create_test_step(step_id: &str, order: u32, step_type: StepType, depends_on: Vec<&str>) -> PipelineStep {
    PipelineStep {
        step_id: step_id.to_string(),
        order,
        step_type,
        cmd: "echo test".to_string(),
        env: std::collections::HashMap::new(),
        working_dir: None,
        must_pass: true,
        depends_on: depends_on.into_iter().map(|s| s.to_string()).collect(),
        always_run: false,
        retry_policy: None,
        security_policy: Default::default(),
        timeout_seconds: 60,
        artifact_collection: None,
    }
}

/// Runs every batch to completion; returns the batches (as step ids), or the
/// error of the run.
fn execute(engine: &ParallelEngine, pipeline: &[PipelineStep]) -> Result<Vec<Vec<String>>, String> {
    let mut run = engine.start(pipeline)?;
    let mut batches = Vec::new();
    loop {
        match run.next_batch(pipeline) {
            BatchStep::Run(ready) => {
                let mut ids = Vec::new();
                for i in ready {
                    run.record_completed(pipeline, i);
                    ids.push(pipeline[i].step_id.clone());
                }
                batches.push(ids);
            }
            BatchStep::Done => return Ok(batches),
            BatchStep::Stuck(m) => return Err(m),
        }
    }
}

#[test]
fn test_parallel_execution_independent_steps() {
    let engine = ParallelEngine::new(2);
    let pipeline = vec![
        create_test_step("step1", 1, StepType::Shell, vec![]),
        create_test_step("step2", 2, StepType::Shell, vec![]),
        create_test_step("step3", 3, StepType::Shell, vec!["step1", "step2"]),
    ];
    let results = execute(&engine, &pipeline);
    assert!(results.is_ok());
    let batches = results.unwrap();
    assert_eq!(batches.iter().map(|b| b.len()).sum::<usize>(), 3);
    assert_eq!(batches, vec![vec!["step1".to_string(), "step2".to_string()], vec!["step3".to_string()]]);
}

#[test]
fn test_parallel_execution_dependency_order() {
    let engine = ParallelEngine::new(2);
    let pipeline = vec![
        create_test_step("step1", 1, StepType::Shell, vec![]),
        create_test_step("step2", 2, StepType::Shell, vec!["step1"]),
        create_test_step("step3", 3, StepType::Shell, vec!["step1"]),
    ];
    let results = execute(&engine, &pipeline);
    assert!(results.is_ok());
    let batches = results.unwrap();
    assert_eq!(batches.iter().map(|b| b.len()).sum::<usize>(), 3);
    assert_eq!(batches[0], vec!["step1".to_string()]);
}

#[test]
fn test_parallel_execution_cycle_detection() {
    let engine = ParallelEngine::new(2);
    let pipeline = vec![
        create_test_step("step1", 1, StepType::Shell, vec!["step2"]),
        create_test_step("step2", 2, StepType::Shell, vec!["step1"]),
    ];
    let results = execute(&engine, &pipeline);
    assert!(results.is_err());
    assert!(results.unwrap_err().contains("Cycle"));
}

#[test]
fn test_empty_pipeline() {
    let engine = ParallelEngine::new(2);
    let pipeline: Vec<PipelineStep> = vec![];
    let results = execute(&engine, &pipeline);
    assert!(results.is_ok());
    assert!(results.unwrap().is_empty());
}

#[test]
fn test_parallel_unknown_dependency_gets_stuck() {
    let engine = ParallelEngine::new(4);
    let pipeline = vec![
        create_test_step("a", 1, StepType::Shell, vec![]),
        create_test_step("b", 2, StepType::Shell, vec!["missing"]),
    ];
    assert_eq!(
        execute(&engine, &pipeline),
        Err("Pipeline stuck: 1 completed out of 2 steps".to_string())
    );
}

#[test]
fn test_max_parallelism_kept() {
    assert_eq!(ParallelEngine::new(7).max_parallelism(), 7);
}

#[test]
fn test_order_results_sorts_by_step_order_stably() {
    let pipeline = vec![
        create_test_step("a", 2, StepType::Shell, vec![]),
        create_test_step("b", 1, StepType::Shell, vec![]),
        create_test_step("c", 2, StepType::Shell, vec![]),
    ];
    let ids: Vec<String> = vec!["c".into(), "x".into(), "a".into(), "b".into()];
    // b has order 1; c and a share order 2 and keep their given order; x is unknown.
    assert_eq!(order_results(&pipeline, &ids), vec![3, 0, 2, 1]);
}

#[test]
fn test_dag_validator_cycle_message() {
    let dag = DagValidator::new();
    let pipeline = vec![
        create_test_step("a", 1, StepType::Shell, vec!["a"]),
    ];
    assert_eq!(
        dag.validate_cycle(&pipeline),
        Err("Cycle detected in pipeline dependencies".to_string())
    );
    let ok = vec![
        create_test_step("a", 1, StepType::Shell, vec!["missing"]),
        create_test_step("b", 2, StepType::Shell, vec!["a"]),
    ];
    assert_eq!(dag.validate_cycle(&ok), Ok(()));
}

#[test]
fn test_dag_ready_steps() {
    let dag = DagValidator::new();
    let pipeline = vec![
        create_test_step("a", 1, StepType::Shell, vec![]),
        create_test_step("b", 2, StepType::Shell, vec!["a"]),
        create_test_step("c", 3, StepType::Shell, vec![]),
    ];
    assert_eq!(dag.get_ready_steps(&pipeline, &vec![]), vec![0, 2]);
    assert_eq!(dag.get_ready_steps(&pipeline, &vec!["a".to_string()]), vec![1, 2]);
    assert_eq!(
        dag.get_ready_steps(&pipeline, &vec!["a".to_string(), "b".to_string(), "c".to_string()]),
        Vec::<usize>::new()
    );
}
