use rsb::executor::{batch_outcome, build_failed_message, tally, BuildStats, Executor, Outcome, ProductAction};
use rsb::graph::{BuildGraph, Product};

fn product(id: usize, processor: &str, input: &str) -> Product {
    Product {
        id,
        processor: processor.to_string(),
        inputs: vec![input.to_string()],
        outputs: vec![],
    }
}

fn diamond() -> BuildGraph {
    BuildGraph {
        products: vec![
            product(0, "ruff", "a.py"),
            product(1, "pylint", "b.py"),
            product(2, "ruff", "c.py"),
            product(3, "mypy", "d.py"),
        ],
        dependencies: vec![vec![], vec![0], vec![0], vec![1, 2]],
    }
}

#[test]
fn parallel_levels_of_a_diamond() {
    let ex = Executor::new(vec!["ruff".to_string()], 4);
    let levels = ex.compute_parallel_levels(&diamond(), &[0, 1, 2, 3]);
    assert_eq!(levels, vec![vec![0], vec![1, 2], vec![3]]);
}

#[test]
fn parallel_levels_same_level_products_are_independent() {
    let graph = diamond();
    let ex = Executor::new(vec![], 2);
    let levels = ex.compute_parallel_levels(&graph, &[0, 2, 1, 3]);
    for level in &levels {
        for a in level {
            for b in level {
                assert!(!graph.dependencies[*b].contains(a));
            }
        }
    }
    assert_eq!(levels, vec![vec![0], vec![2, 1], vec![3]]);
}

#[test]
fn parallel_levels_dependency_not_yet_placed() {
    let graph = diamond();
    let ex = Executor::new(vec![], 2);
    // product 1 comes before its dependency 0: it still goes one level up
    let levels = ex.compute_parallel_levels(&graph, &[1, 0]);
    assert_eq!(levels, vec![vec![0], vec![1]]);
}

#[test]
fn parallel_levels_empty_order() {
    let ex = Executor::new(vec![], 2);
    let levels = ex.compute_parallel_levels(&diamond(), &[]);
    assert!(levels.is_empty());
}

#[test]
fn next_action_covers_every_case() {
    let ex = Executor::new(vec!["ruff".to_string()], 1);
    let known = product(0, "ruff", "a.py");
    let unknown = product(1, "pylint", "b.py");
    assert_eq!(ex.next_action(&known, false, false, None), ProductAction::Skip);
    assert_eq!(ex.next_action(&known, false, true, None), ProductAction::Restore);
    assert_eq!(ex.next_action(&known, false, true, Some(true)), ProductAction::Skip);
    assert_eq!(ex.next_action(&known, false, true, Some(false)), ProductAction::Execute);
    assert_eq!(ex.next_action(&known, true, false, None), ProductAction::Execute);
    assert_eq!(ex.next_action(&unknown, true, false, None), ProductAction::Ignore);
    assert_eq!(ex.next_action(&unknown, false, true, Some(false)), ProductAction::Ignore);
}

#[test]
fn runs_sequentially_only_with_one_job() {
    assert!(Executor::new(vec![], 0).runs_sequentially());
    assert!(Executor::new(vec![], 1).runs_sequentially());
    assert!(!Executor::new(vec![], 2).runs_sequentially());
}

#[test]
fn chunk_size_rounds_up() {
    let ex = Executor::new(vec![], 4);
    assert_eq!(ex.chunk_size(10), 3);
    assert_eq!(ex.chunk_size(8), 2);
    assert_eq!(ex.chunk_size(4), 1);
    assert_eq!(ex.chunk_size(5), 2);
    assert_eq!(ex.chunk_size(0), 1);
}

#[test]
fn has_processor_by_name() {
    let ex = Executor::new(vec!["ruff".to_string(), "mypy".to_string()], 1);
    assert!(ex.has_processor("mypy"));
    assert!(!ex.has_processor("pylint"));
}

#[test]
fn clean_targets_are_products_with_a_known_processor() {
    let ex = Executor::new(vec!["ruff".to_string()], 1);
    assert_eq!(ex.clean(&diamond()), vec![0, 2]);
}

#[test]
fn stats_count_each_outcome() {
    let mut stats = BuildStats::new();
    assert_eq!(stats.count_of("ruff", Outcome::Processed), 0);
    stats.record("ruff", Outcome::Processed);
    stats.record("ruff", Outcome::Skipped);
    stats.record("ruff", Outcome::Processed);
    stats.record("mypy", Outcome::Skipped);
    assert_eq!(stats.count_of("ruff", Outcome::Processed), 2);
    assert_eq!(stats.count_of("ruff", Outcome::Skipped), 1);
    assert_eq!(stats.count_of("mypy", Outcome::Skipped), 1);
    assert_eq!(stats.count_of("mypy", Outcome::Processed), 0);
    assert_eq!(stats.by_processor.len(), 2);
}

#[test]
fn build_failed_message_names_the_error() {
    assert_eq!(build_failed_message("ruff failed on a.py"), "Build failed: ruff failed on a.py");
}

#[test]
fn execute_batches_one_by_one_or_by_level() {
    let graph = diamond();
    let one = Executor::new(vec![], 1);
    assert_eq!(one.execute(&graph, &[0, 1, 2, 3]), vec![vec![0], vec![1], vec![2], vec![3]]);
    let many = Executor::new(vec![], 3);
    assert_eq!(many.execute(&graph, &[0, 1, 2, 3]), vec![vec![0], vec![1, 2], vec![3]]);
}

#[test]
fn parallel_levels_put_dependencies_lower() {
    let graph = diamond();
    let ex = Executor::new(vec![], 2);
    let levels = ex.compute_parallel_levels(&graph, &[0, 1, 2, 3]);
    let level_of = |id: usize| levels.iter().position(|l| l.contains(&id)).unwrap();
    for (id, deps) in graph.dependencies.iter().enumerate() {
        for d in deps {
            assert!(level_of(*d) < level_of(id));
        }
    }
    assert!(levels.iter().all(|l| !l.is_empty()));
}

#[test]
fn batch_outcome_goes_on_or_stops_with_first_error() {
    assert_eq!(batch_outcome(&[]), Ok(()));
    let errors = vec!["first broke".to_string(), "second broke".to_string()];
    assert_eq!(batch_outcome(&errors), Err("Build failed: first broke".to_string()));
}

#[test]
fn execute_runs_the_same_products_whatever_the_jobs() {
    let graph = diamond();
    let order = [0, 2, 1, 3];
    let mut counts = Vec::new();
    for jobs in [0, 1, 2, 8] {
        let batches = Executor::new(vec![], jobs).execute(&graph, &order);
        let mut all: Vec<usize> = batches.iter().flatten().copied().collect();
        all.sort();
        assert_eq!(all, vec![0, 1, 2, 3]);
        let ruff = batches.iter().flatten().filter(|&&id| graph.products[id].processor == "ruff").count();
        counts.push(ruff);
        let batch_of = |id: usize| batches.iter().position(|b| b.contains(&id)).unwrap();
        for (id, deps) in graph.dependencies.iter().enumerate() {
            for d in deps {
                assert!(batch_of(*d) < batch_of(id));
            }
        }
    }
    assert!(counts.iter().all(|&c| c == 2));
}

#[test]
fn tally_counts_the_same_whatever_the_jobs() {
    let graph = diamond();
    let order = [0, 1, 2, 3];
    let outcomes = vec![Some(Outcome::Processed), None, Some(Outcome::Skipped), Some(Outcome::Processed)];
    for jobs in [1, 3] {
        let batches = Executor::new(vec![], jobs).execute(&graph, &order);
        let stats = tally(&graph, &batches, &outcomes);
        assert_eq!(stats.count_of("ruff", Outcome::Processed), 1);
        assert_eq!(stats.count_of("ruff", Outcome::Skipped), 1);
        assert_eq!(stats.count_of("mypy", Outcome::Processed), 1);
        assert_eq!(stats.count_of("pylint", Outcome::Processed), 0);
        assert_eq!(stats.count_of("pylint", Outcome::Skipped), 0);
    }
}
