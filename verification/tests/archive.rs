use exar::archive::{ArchiveStore, Experiment, RunContext};
use exar::variables::VariableTemplate;
use exar::Error;

use rand::distributions::Alphanumeric;
use rand::{thread_rng, Rng};

fn random_string(length: usize) -> String {
    let mut rng = thread_rng();
    (0..length)
        .map(|_| rng.sample(Alphanumeric) as char)
        .collect()
}

fn random_templates(count: usize) -> Vec<VariableTemplate> {
    (0..count)
        .map(|_| VariableTemplate::new(random_string(16), random_string(32), random_string(8)))
        .collect()
}

#[test]
fn integration_showcase() {
    let mut store = ArchiveStore::new();
    let variables = vec![
        VariableTemplate::new(
            "Dataset".to_string(),
            "The dataset used for this experiment".to_string(),
            "none".to_string(),
        ),
        VariableTemplate::new(
            "Runtime".to_string(),
            "The runtime of the experiment".to_string(),
            "ms".to_string(),
        ),
    ];

    let experiment = Experiment::new(
        &mut store,
        "Performance Test 1".to_string(),
        "This experiment tests general performance of tool XYZ".to_string(),
        "Name of the researchers".to_string(),
        variables,
    )
    .expect("Failed to create experiment");

    let mut context = RunContext::from_experiment(&experiment);
    context
        .add_value_by_name("Dataset", "Dataset 1".to_string())
        .expect("unknown variable");
    context
        .add_value_by_name("Runtime", "123".to_string())
        .expect("unknown variable");
    experiment
        .run(&mut store, &context)
        .expect("Failed to run experiment");
}

#[test]
fn new_experiment_is_added_to_db() {
    let mut store = ArchiveStore::new();
    let variables = random_templates(4);

    let experiment = Experiment::new(
        &mut store,
        random_string(16),
        random_string(32),
        random_string(16),
        variables,
    )
    .expect("Failed to create new Experiment");

    let all_experiments = Experiment::all(&store);
    let matching_experiment = all_experiments.iter().find(|ex| ex.id() == experiment.id());
    let matching_experiment = matching_experiment.expect("Failed to fetch experiments from DB");
    assert_eq!(experiment.name(), matching_experiment.name());
    assert_eq!(experiment.description(), matching_experiment.description());
    assert_eq!(experiment.researcher(), matching_experiment.researcher());
}

#[test]
fn add_known_experiment() {
    let mut store = ArchiveStore::new();
    let variables = random_templates(4);
    let cloned: Vec<VariableTemplate> = variables.iter().cloned().collect();

    let name = random_string(16);
    let description = random_string(32);
    let researcher = random_string(16);

    let experiment1 = Experiment::new(
        &mut store,
        name.clone(),
        description.clone(),
        researcher.clone(),
        variables,
    )
    .expect("Failed to create new Experiment");

    // Adding the experiment again must yield the same stored experiment
    let experiment2 = Experiment::new(&mut store, name, description, researcher, cloned)
        .expect("Failed to create new Experiment");
    assert_eq!(experiment1.id(), experiment2.id());

    let all_experiments = Experiment::all(&store);
    assert_eq!(
        1,
        all_experiments
            .iter()
            .filter(|ex| ex.id() == experiment1.id())
            .count()
    );
}

#[test]
fn new_experiment_run() {
    let mut store = ArchiveStore::new();
    let variables = random_templates(4);

    let experiment = Experiment::new(
        &mut store,
        random_string(16),
        random_string(32),
        random_string(16),
        variables,
    )
    .expect("Failed to create new Experiment");

    let expected_measurements_for_run: Vec<(String, String)> = experiment
        .variables()
        .iter()
        .map(|variable| (variable.template().name().to_string(), random_string(8)))
        .collect();

    let mut context = RunContext::from_experiment(&experiment);
    for (variable_name, value) in &expected_measurements_for_run {
        context
            .add_value_by_name(variable_name, value.clone())
            .expect("unknown variable");
    }
    let run_id = experiment
        .run(&mut store, &context)
        .expect("Experiment run failed");

    let actual_measurements_for_run = experiment
        .measurements_for_run(&store, &run_id)
        .expect("Failed to get measurements for experiment run");

    assert_eq!(
        expected_measurements_for_run.len(),
        actual_measurements_for_run.len()
    );

    for measurement in actual_measurements_for_run {
        let expected_value = expected_measurements_for_run
            .iter()
            .find(|(name, _)| name == measurement.variable().template().name())
            .map(|(_, value)| value)
            .expect("Unexpected variable");
        assert_eq!(expected_value, measurement.value());
    }
}

#[test]
fn delete_experiment() {
    // Create a new experiment, add a run, then delete the experiment and
    // verify that everything was deleted
    let mut store = ArchiveStore::new();
    let variables = random_templates(4);
    let cloned: Vec<VariableTemplate> = variables.iter().cloned().collect();

    let name = random_string(16);
    let description = random_string(32);
    let researcher = random_string(16);

    let experiment1 = Experiment::new(
        &mut store,
        name.clone(),
        description.clone(),
        researcher.clone(),
        variables,
    )
    .expect("Failed to create new Experiment");

    let mut context = RunContext::from_experiment(&experiment1);
    for variable in experiment1.variables().iter() {
        context
            .add_value_by_name(variable.template().name(), random_string(8))
            .expect("unknown variable");
    }
    experiment1
        .run(&mut store, &context)
        .expect("Experiment run failed");

    experiment1.delete_from_database(&mut store);

    assert!(Experiment::from_name(&store, &name).is_none());

    // Creating a new experiment with the same parameters must yield a new
    // experiment with zero runs
    let same_experiment = Experiment::new(
        &mut store,
        name.clone(),
        description.clone(),
        researcher.clone(),
        cloned,
    )
    .expect("Failed to create Experiment");
    let runs = same_experiment
        .all_runs(&store)
        .expect("failed to get experiment runs");
    assert!(runs.is_empty());
}

#[test]
fn delete_runs() {
    let mut store = ArchiveStore::new();
    let variables = random_templates(4);

    let name = random_string(16);
    let description = random_string(32);
    let researcher = random_string(16);

    let experiment1 = Experiment::new(
        &mut store,
        name.clone(),
        description.clone(),
        researcher.clone(),
        variables,
    )
    .expect("Failed to create new Experiment");

    let expected_measurements_for_run: Vec<(String, String)> = experiment1
        .variables()
        .iter()
        .map(|variable| (variable.template().name().to_string(), random_string(8)))
        .collect();

    // Add a bunch of runs
    let num_runs: usize = 12;
    for _ in 0..num_runs {
        let mut context = RunContext::from_experiment(&experiment1);
        for (variable_name, value) in &expected_measurements_for_run {
            context
                .add_value_by_name(variable_name, value.clone())
                .expect("unknown variable");
        }
        experiment1
            .run(&mut store, &context)
            .expect("Experiment run failed");
    }

    // Run numbers start at 1. Delete the first run and verify that only
    // this run was deleted
    experiment1
        .delete_runs_from_database(&mut store, &vec![1])
        .expect("deleting run 1 failed");
    let expected_run_numbers = (2..=num_runs).collect::<Vec<_>>();
    let actual_run_numbers = experiment1
        .all_runs(&store)
        .expect("failed to get runs")
        .into_iter()
        .map(|run| run.run_number())
        .collect::<Vec<_>>();
    assert_eq!(expected_run_numbers, actual_run_numbers);

    // Delete all other runs. No runs should remain
    let rest: Vec<usize> = (2..=num_runs).collect();
    experiment1
        .delete_runs_from_database(&mut store, &rest)
        .expect("deleting the remaining runs failed");
    assert!(experiment1
        .all_runs(&store)
        .expect("failed to get runs")
        .is_empty());
}

#[test]
fn mismatched_experiment_data_is_rejected() {
    let mut store = ArchiveStore::new();
    let variables = random_templates(2);
    let cloned: Vec<VariableTemplate> = variables.iter().cloned().collect();
    let cloned2: Vec<VariableTemplate> = variables.iter().cloned().collect();

    let name = random_string(16);
    Experiment::new(
        &mut store,
        name.clone(),
        "description one".to_string(),
        "researcher one".to_string(),
        variables,
    )
    .expect("Failed to create new Experiment");

    let wrong_description = Experiment::new(
        &mut store,
        name.clone(),
        "description two".to_string(),
        "researcher one".to_string(),
        cloned,
    );
    assert_eq!(
        Err(Error::DescriptionMismatch),
        wrong_description.map(|_| ())
    );

    let wrong_researcher = Experiment::new(
        &mut store,
        name.clone(),
        "description one".to_string(),
        "researcher two".to_string(),
        cloned2,
    );
    assert_eq!(Err(Error::ResearcherMismatch), wrong_researcher.map(|_| ()));

    let wrong_variables = Experiment::new(
        &mut store,
        name.clone(),
        "description one".to_string(),
        "researcher one".to_string(),
        random_templates(2),
    );
    assert_eq!(
        Err(Error::VariableSetMismatch),
        wrong_variables.map(|_| ())
    );
}

#[test]
fn unknown_run_numbers_delete_nothing() {
    let mut store = ArchiveStore::new();
    let experiment = Experiment::new(
        &mut store,
        random_string(16),
        random_string(32),
        random_string(16),
        random_templates(1),
    )
    .expect("Failed to create new Experiment");

    let mut context = RunContext::from_experiment(&experiment);
    for variable in experiment.variables().iter() {
        context
            .add_value_by_name(variable.template().name(), "1".to_string())
            .expect("unknown variable");
    }
    experiment
        .run(&mut store, &context)
        .expect("Experiment run failed");

    let r = experiment.delete_runs_from_database(&mut store, &vec![1, 5]);
    assert_eq!(Err(Error::UnknownRunNumber), r);
    assert_eq!(
        1,
        experiment.all_runs(&store).expect("failed to get runs").len()
    );
}

#[test]
fn incomplete_run_values_are_rejected() {
    let mut store = ArchiveStore::new();
    let experiment = Experiment::new(
        &mut store,
        random_string(16),
        random_string(32),
        random_string(16),
        random_templates(2),
    )
    .expect("Failed to create new Experiment");

    let mut context = RunContext::from_experiment(&experiment);
    context
        .add_value_by_name(
            experiment.variables()[0].template().name(),
            "only one".to_string(),
        )
        .expect("unknown variable");
    let r = experiment.run(&mut store, &context);
    assert_eq!(Err(Error::MeasurementMismatch), r.map(|_| ()));
    assert!(experiment
        .all_runs(&store)
        .expect("failed to get runs")
        .is_empty());

    let context = RunContext::from_experiment(&experiment);
    let unknown = context.experiment.required_variables.len();
    assert_eq!(2, unknown);
    let mut context = context;
    assert_eq!(
        Err(Error::UnknownVariable),
        context.add_value_by_name("no such variable", "v".to_string())
    );
}

#[test]
fn reported_values_replace_earlier_ones() {
    let mut store = ArchiveStore::new();
    let experiment = Experiment::new(
        &mut store,
        "replacing".to_string(),
        "description".to_string(),
        "researcher".to_string(),
        vec![VariableTemplate::new(
            "v".to_string(),
            "a variable".to_string(),
            "unit".to_string(),
        )],
    )
    .expect("Failed to create new Experiment");

    let mut context = RunContext::from_experiment(&experiment);
    context
        .add_value_by_name("v", "first".to_string())
        .expect("unknown variable");
    context
        .add_value_by_name("v", "second".to_string())
        .expect("unknown variable");
    assert_eq!(1, context.variable_values.len());
    assert_eq!("second", context.variable_values[0].1);

    let run_id = experiment
        .run(&mut store, &context)
        .expect("Experiment run failed");
    let measurements = experiment
        .measurements_for_run(&store, &run_id)
        .expect("Failed to get measurements");
    assert_eq!(1, measurements.len());
    assert_eq!("second", measurements[0].value());
}

#[test]
fn catalog_variables_are_reused_across_experiments() {
    let mut store = ArchiveStore::new();
    let first = Experiment::new(
        &mut store,
        "first".to_string(),
        "description".to_string(),
        "researcher".to_string(),
        vec![VariableTemplate::new(
            "shared".to_string(),
            "original description".to_string(),
            "unit".to_string(),
        )],
    )
    .expect("Failed to create new Experiment");
    // a second experiment naming the same variable reuses the stored one,
    // keeping its original description
    let second = Experiment::new(
        &mut store,
        "second".to_string(),
        "another description".to_string(),
        "researcher".to_string(),
        vec![VariableTemplate::new(
            "shared".to_string(),
            "changed description".to_string(),
            "unit".to_string(),
        )],
    )
    .expect("Failed to create new Experiment");
    assert_eq!(
        first.variables()[0].id(),
        second.variables()[0].id()
    );
    assert_eq!(
        "original description",
        second.variables()[0].template().description()
    );
    assert_eq!(1, store.variables.len());
}

#[test]
fn override_existing_is_not_offered() {
    let r = Experiment::override_existing(
        "name".to_string(),
        "description".to_string(),
        "researcher".to_string(),
        Vec::new(),
    );
    assert_eq!(Err(Error::Unsupported), r);
}
