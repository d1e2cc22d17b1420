use exar::experiment::ExperimentVersion;
use exar::run::RunContext;
use exar::store::Store;
use exar::variable::{DataType, GenericValue, Variable};
use exar::Error;

use rand::distributions::Alphanumeric;
use rand::{thread_rng, Rng};

fn random_string(length: usize) -> String {
    let mut rng = thread_rng();
    (0..length)
        .map(|_| rng.sample(Alphanumeric) as char)
        .collect()
}

fn default_input_variables() -> Vec<Variable> {
    vec![
        Variable::new(random_string(16), random_string(32), DataType::Label),
        Variable::new(random_string(16), random_string(32), DataType::Text),
    ]
}

fn alternative_input_variables() -> Vec<Variable> {
    vec![Variable::new(
        random_string(17),
        random_string(32),
        DataType::Label,
    )]
}

fn default_output_variables() -> Vec<Variable> {
    vec![
        Variable::new(random_string(16), random_string(32), DataType::Number),
        Variable::new(
            random_string(16),
            random_string(32),
            DataType::Unit("ms".to_string()),
        ),
    ]
}

fn alternative_output_variables() -> Vec<Variable> {
    vec![Variable::new(
        random_string(17),
        random_string(32),
        DataType::Number,
    )]
}

fn clone_variables(vars: &Vec<Variable>) -> Vec<Variable> {
    vars.iter().cloned().collect()
}

fn clone_strings(strs: &Vec<String>) -> Vec<String> {
    strs.iter().cloned().collect()
}

#[test]
fn insert_experiment() {
    let mut store = Store::new();
    let input_variables = default_input_variables();
    let output_variables = default_output_variables();
    let experiment_version = ExperimentVersion::get_current_version(
        &mut store,
        random_string(16),
        random_string(32),
        vec![random_string(8), random_string(8)],
        input_variables,
        output_variables,
    )
    .expect("version resolution failed");

    let all_experiments = store.fetch_experiments();
    assert!(all_experiments
        .iter()
        .any(|name| name == experiment_version.name()));

    let specific_version = store.fetch_specific_experiment_version(
        &experiment_version.name().to_string(),
        &experiment_version.version().to_string(),
    );
    let specific_version = specific_version.expect("inserted version not found");
    assert_eq!(specific_version.id(), experiment_version.id());
    assert_eq!(specific_version.name(), experiment_version.name());
    assert_eq!(specific_version.description(), experiment_version.description());
    assert_eq!(
        specific_version.researchers().len(),
        experiment_version.researchers().len()
    );
}

#[test]
fn experiment_versioning() {
    let mut store = Store::new();
    let input_variables = default_input_variables();
    let output_variables = default_output_variables();
    let experiment_version = ExperimentVersion::get_current_version(
        &mut store,
        random_string(16),
        random_string(32),
        vec![random_string(8), random_string(8)],
        clone_variables(&input_variables),
        clone_variables(&output_variables),
    )
    .expect("version resolution failed");

    // Changing the description, the researchers, an input variable or an
    // output variable must produce a new version each time.
    let different_description_ex = ExperimentVersion::get_current_version(
        &mut store,
        experiment_version.name().to_string(),
        random_string(33),
        clone_strings(experiment_version.researchers()),
        clone_variables(experiment_version.input_variables()),
        clone_variables(experiment_version.output_variables()),
    )
    .expect("version resolution failed");
    let different_researchers_ex = ExperimentVersion::get_current_version(
        &mut store,
        experiment_version.name().to_string(),
        experiment_version.description().to_string(),
        vec![random_string(13)],
        clone_variables(experiment_version.input_variables()),
        clone_variables(experiment_version.output_variables()),
    )
    .expect("version resolution failed");
    let different_input_variables_ex = ExperimentVersion::get_current_version(
        &mut store,
        experiment_version.name().to_string(),
        experiment_version.description().to_string(),
        clone_strings(experiment_version.researchers()),
        alternative_input_variables(),
        clone_variables(experiment_version.output_variables()),
    )
    .expect("version resolution failed");
    let different_output_variables_ex = ExperimentVersion::get_current_version(
        &mut store,
        experiment_version.name().to_string(),
        experiment_version.description().to_string(),
        clone_strings(experiment_version.researchers()),
        clone_variables(experiment_version.input_variables()),
        alternative_output_variables(),
    )
    .expect("version resolution failed");

    let experiment_versions =
        store.fetch_all_experiment_versions_by_name(&experiment_version.name().to_string());

    assert_eq!(5, experiment_versions.len());
    let has_id = |id: &str| experiment_versions.iter().any(|v| v.id() == id);
    assert!(has_id(experiment_version.id()));
    assert!(has_id(different_description_ex.id()));
    assert!(has_id(different_researchers_ex.id()));
    assert!(has_id(different_input_variables_ex.id()));
    assert!(has_id(different_output_variables_ex.id()));
}

#[test]
fn experiment_instance() {
    let mut store = Store::new();
    let input_variables = default_input_variables();
    let output_variables = default_output_variables();
    let experiment_version = ExperimentVersion::get_current_version(
        &mut store,
        random_string(16),
        random_string(32),
        vec![random_string(8), random_string(8)],
        clone_variables(&input_variables),
        clone_variables(&output_variables),
    )
    .expect("version resolution failed");

    let fixed_variables: Vec<(String, GenericValue)> = input_variables
        .iter()
        .map(|var| {
            (
                var.name().to_string(),
                GenericValue::String(random_string(4)),
            )
        })
        .collect();
    let instance = experiment_version
        .make_instance(&mut store, fixed_variables)
        .expect("instance resolution failed");

    let instance_from_db = store
        .fetch_instance_from_id(&instance.id().to_string(), &experiment_version)
        .expect("Specific experiment instance not found in database");
    assert_eq!(instance.id(), instance_from_db.id());
    assert_eq!(
        instance.experiment_version().id(),
        instance_from_db.experiment_version().id()
    );
    assert_eq!(
        instance.input_variable_values().len(),
        instance_from_db.input_variable_values().len()
    );
    for expected_var in instance.input_variable_values() {
        instance_from_db
            .input_variable_values()
            .iter()
            .find(|v| *v == expected_var)
            .unwrap_or_else(|| {
                panic!("Missing value {expected_var:?} in ExperimentInstance fetched from database")
            });
    }
}

#[test]
fn integration_run_experiment() {
    let mut store = Store::new();
    let input_variables = default_input_variables();
    let output_variables = default_output_variables();
    let experiment_version = ExperimentVersion::get_current_version(
        &mut store,
        random_string(16),
        random_string(32),
        vec![random_string(8), random_string(8)],
        clone_variables(&input_variables),
        clone_variables(&output_variables),
    )
    .expect("version resolution failed");

    let fixed_variables: Vec<(String, GenericValue)> = input_variables
        .iter()
        .map(|var| {
            (
                var.name().to_string(),
                GenericValue::String(random_string(4)),
            )
        })
        .collect();
    let instance = experiment_version
        .make_instance(&mut store, fixed_variables)
        .expect("instance resolution failed");

    let mut context = RunContext::from_instance(&instance);
    for out_var in &output_variables {
        context
            .add_measurement(out_var.name(), GenericValue::Numeric("42".to_string()))
            .expect("measurement rejected");
    }
    let run = context.record(&mut store).expect("run recording failed");

    let mut runs = store.fetch_all_runs_of_instance(&instance);

    assert_eq!(1, runs.len());
    let run_from_db = runs.remove(0);
    assert_eq!(run_from_db.id(), run.id());
    assert_eq!(run_from_db.date(), run.date());
    assert_eq!(
        run_from_db.experiment_instance().id(),
        run.experiment_instance().id()
    );
    // All measured values should be 42
    assert!(run_from_db
        .measurements()
        .iter()
        .all(|val| *val.value() == GenericValue::Numeric("42".to_string())));
}

#[test]
fn integration_delete_experiment() {
    let mut store = Store::new();
    let input_variables = default_input_variables();
    let output_variables = default_output_variables();
    let experiment_version = ExperimentVersion::get_current_version(
        &mut store,
        random_string(16),
        random_string(32),
        vec![random_string(8), random_string(8)],
        clone_variables(&input_variables),
        clone_variables(&output_variables),
    )
    .expect("version resolution failed");

    let fixed_variables: Vec<(String, GenericValue)> = input_variables
        .iter()
        .map(|var| {
            (
                var.name().to_string(),
                GenericValue::String(random_string(4)),
            )
        })
        .collect();
    let instance = experiment_version
        .make_instance(&mut store, fixed_variables)
        .expect("instance resolution failed");

    let mut context = RunContext::from_instance(&instance);
    for out_var in &output_variables {
        context
            .add_measurement(out_var.name(), GenericValue::Numeric("42".to_string()))
            .expect("measurement rejected");
    }
    context.record(&mut store).expect("run recording failed");

    store.delete_experiment(&experiment_version.name().to_string());

    let runs = store.fetch_all_runs_of_instance(&instance);
    assert!(runs.is_empty());

    let instances = store.fetch_all_instances_of_experiment_version(&experiment_version);
    assert!(instances.is_empty());

    let versions =
        store.fetch_all_experiment_versions_by_name(&experiment_version.name().to_string());
    assert!(versions.is_empty());

    let all_experiments = store.fetch_experiments();
    assert!(all_experiments
        .iter()
        .find(|name| name.as_str() == experiment_version.name())
        .is_none());
}

#[test]
fn run_without_db_run_experiment() {
    let mut store = Store::new();
    let input_variables = default_input_variables();
    let output_variables = default_output_variables();
    let experiment_version = ExperimentVersion::get_current_version(
        &mut store,
        random_string(16),
        random_string(32),
        vec![random_string(8), random_string(8)],
        clone_variables(&input_variables),
        clone_variables(&output_variables),
    )
    .expect("version resolution failed");

    let fixed_variables: Vec<(String, GenericValue)> = input_variables
        .iter()
        .map(|var| {
            (
                var.name().to_string(),
                GenericValue::String(random_string(4)),
            )
        })
        .collect();
    let instance = experiment_version
        .make_instance(&mut store, fixed_variables)
        .expect("instance resolution failed");

    let mut context = RunContext::from_instance(&instance);
    for out_var in &output_variables {
        context
            .add_measurement(out_var.name(), GenericValue::Numeric("42".to_string()))
            .expect("measurement rejected");
    }
    let run = context.record(&mut store).expect("run recording failed");

    // All measured values should be 42
    assert!(run
        .measurements()
        .iter()
        .all(|val| *val.value() == GenericValue::Numeric("42".to_string())));
}

#[test]
fn showcase_showcase() {
    let mut store = Store::new();
    let input_variables = vec![
        Variable::new(
            "Variable 1".to_string(),
            "Description of variable 1".to_string(),
            DataType::Label,
        ),
        Variable::new(
            "Variable 2".to_string(),
            "Description of variable 2".to_string(),
            DataType::Text,
        ),
    ];

    let output_variables = vec![
        Variable::new(
            "Out var 1".to_string(),
            "The first output variable".to_string(),
            DataType::Number,
        ),
        Variable::new(
            "Out var 2".to_string(),
            "An output variable with a unit!".to_string(),
            DataType::Unit("m/s".to_string()),
        ),
    ];

    let researchers = vec!["Dr. Re Search".to_string(), "Prof. Guy McData".to_string()];

    let experiment = ExperimentVersion::get_current_version(
        &mut store,
        "Test experiment 1".to_string(),
        "Description of the test experiment".to_string(),
        researchers,
        input_variables,
        output_variables,
    )
    .expect("version resolution failed");

    let instance = experiment
        .make_instance(
            &mut store,
            vec![
                (
                    "Variable 1".to_string(),
                    GenericValue::String("Fixed value".to_string()),
                ),
                (
                    "Variable 2".to_string(),
                    GenericValue::String("Another fixed value".to_string()),
                ),
            ],
        )
        .expect("instance resolution failed");

    let mut context = RunContext::from_instance(&instance);
    // execute some code, then add measurements
    println!("running experiment...");
    context
        .add_measurement("Out var 1", GenericValue::Numeric("42".to_string()))
        .expect("measurement rejected");
    context
        .add_measurement("Out var 2", GenericValue::Numeric("-10".to_string()))
        .expect("measurement rejected");
    context.record(&mut store).expect("run recording failed");
}

#[test]
fn resolving_twice_reuses_the_version() {
    let mut store = Store::new();
    let name = "repeatable".to_string();
    let description = "stable description".to_string();
    let researchers = vec!["r1".to_string()];
    let ins = vec![Variable::new(
        "in".to_string(),
        "input".to_string(),
        DataType::Label,
    )];
    let outs = vec![Variable::new(
        "out".to_string(),
        "output".to_string(),
        DataType::Number,
    )];
    let v1 = store
        .resolve_version(
            name.clone(),
            description.clone(),
            researchers.clone(),
            ins.clone(),
            outs.clone(),
            "tag-a".to_string(),
            10,
            "id-one".to_string(),
        )
        .expect("first resolution failed");
    let versions_after_first = store.versions.len();
    let v2 = store
        .resolve_version(
            name.clone(),
            description.clone(),
            researchers.clone(),
            ins.clone(),
            outs.clone(),
            "tag-a".to_string(),
            11,
            "id-two".to_string(),
        )
        .expect("second resolution failed");
    assert_eq!(v1.id(), v2.id());
    assert_eq!(versions_after_first, store.versions.len());
}

#[test]
fn resolving_a_change_forks_the_version() {
    let mut store = Store::new();
    let name = "forked".to_string();
    let researchers = vec!["r1".to_string()];
    let ins = vec![Variable::new(
        "in".to_string(),
        "input".to_string(),
        DataType::Label,
    )];
    let outs = vec![Variable::new(
        "out".to_string(),
        "output".to_string(),
        DataType::Number,
    )];
    let v1 = store
        .resolve_version(
            name.clone(),
            "first description".to_string(),
            researchers.clone(),
            ins.clone(),
            outs.clone(),
            "tag-a".to_string(),
            10,
            "id-one".to_string(),
        )
        .expect("first resolution failed");
    let v2 = store
        .resolve_version(
            name.clone(),
            "second description".to_string(),
            researchers.clone(),
            ins.clone(),
            outs.clone(),
            "tag-a".to_string(),
            11,
            "id-two".to_string(),
        )
        .expect("second resolution failed");
    assert_ne!(v1.id(), v2.id());
    let versions = store.fetch_all_experiment_versions_by_name(&name);
    assert_eq!(2, versions.len());
    assert!(versions.iter().any(|v| v.id() == v1.id()));
    assert!(versions.iter().any(|v| v.id() == v2.id()));
}

#[test]
fn resolving_an_instance_twice_reuses_it() {
    let mut store = Store::new();
    let ins = vec![
        Variable::new("a".to_string(), "first".to_string(), DataType::Label),
        Variable::new("b".to_string(), "second".to_string(), DataType::Number),
    ];
    let outs = vec![Variable::new(
        "out".to_string(),
        "output".to_string(),
        DataType::Number,
    )];
    let version = ExperimentVersion::get_current_version(
        &mut store,
        "dedup".to_string(),
        "description".to_string(),
        vec!["r".to_string()],
        ins,
        outs,
    )
    .expect("version resolution failed");
    let first = version
        .make_instance(
            &mut store,
            vec![
                ("a".to_string(), GenericValue::String("x".to_string())),
                ("b".to_string(), GenericValue::Numeric("7".to_string())),
            ],
        )
        .expect("first instance failed");
    // the same assignment, written in the other order
    let second = version
        .make_instance(
            &mut store,
            vec![
                ("b".to_string(), GenericValue::Numeric("7".to_string())),
                ("a".to_string(), GenericValue::String("x".to_string())),
            ],
        )
        .expect("second instance failed");
    assert_eq!(first.id(), second.id());
    assert_eq!(1, store.instances.len());
}

#[test]
fn incomplete_measurements_are_rejected() {
    let mut store = Store::new();
    let ins = vec![Variable::new(
        "in".to_string(),
        "input".to_string(),
        DataType::Label,
    )];
    let outs = vec![
        Variable::new("y1".to_string(), "first out".to_string(), DataType::Number),
        Variable::new("y2".to_string(), "second out".to_string(), DataType::Number),
    ];
    let version = ExperimentVersion::get_current_version(
        &mut store,
        "partial".to_string(),
        "description".to_string(),
        vec!["r".to_string()],
        ins,
        outs,
    )
    .expect("version resolution failed");
    let instance = version
        .make_instance(
            &mut store,
            vec![("in".to_string(), GenericValue::String("v".to_string()))],
        )
        .expect("instance failed");

    // a strict subset of the output variables is rejected, and no run row
    // is created
    let mut context = RunContext::from_instance(&instance);
    context
        .add_measurement("y1", GenericValue::Numeric("1".to_string()))
        .expect("measurement rejected");
    let r = context.record(&mut store);
    assert_eq!(Err(Error::MeasurementMismatch), r.map(|_| ()));
    assert!(store.fetch_all_runs_of_instance(&instance).is_empty());

    // an unexpected extra variable is rejected as well
    let mut context = RunContext::from_instance(&instance);
    context
        .add_measurement("y1", GenericValue::Numeric("1".to_string()))
        .expect("measurement rejected");
    context
        .add_measurement("y2", GenericValue::Numeric("2".to_string()))
        .expect("measurement rejected");
    assert_eq!(
        Err(Error::UnknownVariable),
        context.add_measurement("y3", GenericValue::Numeric("3".to_string()))
    );

    // reporting a variable twice is rejected when the run completes
    let mut context = RunContext::from_instance(&instance);
    context
        .add_measurement("y1", GenericValue::Numeric("1".to_string()))
        .expect("measurement rejected");
    context
        .add_measurement("y1", GenericValue::Numeric("2".to_string()))
        .expect("measurement rejected");
    context
        .add_measurement("y2", GenericValue::Numeric("3".to_string()))
        .expect("measurement rejected");
    let r = context.record(&mut store);
    assert_eq!(Err(Error::MeasurementMismatch), r.map(|_| ()));
    assert!(store.fetch_all_runs_of_instance(&instance).is_empty());
}

#[test]
fn scenario_label_in_number_out() {
    // create experiment "E" with input variable X:Label and output variable
    // Y:Number; resolve an instance with X="a"; record a run with Y=42;
    // delete the experiment and check that everything is gone
    let mut store = Store::new();
    let version = ExperimentVersion::get_current_version(
        &mut store,
        "E".to_string(),
        "scenario".to_string(),
        vec!["r".to_string()],
        vec![Variable::new("X".to_string(), "in".to_string(), DataType::Label)],
        vec![Variable::new("Y".to_string(), "out".to_string(), DataType::Number)],
    )
    .expect("version resolution failed");
    let instance = version
        .make_instance(
            &mut store,
            vec![("X".to_string(), GenericValue::String("a".to_string()))],
        )
        .expect("instance failed");
    let mut context = RunContext::from_instance(&instance);
    context
        .add_measurement("Y", GenericValue::Numeric("42".to_string()))
        .expect("measurement rejected");
    context.record(&mut store).expect("run failed");

    let runs = store.fetch_all_runs_of_instance(&instance);
    assert_eq!(1, runs.len());
    assert_eq!(1, runs[0].measurements().len());
    assert_eq!(
        GenericValue::Numeric("42".to_string()),
        *runs[0].measurements()[0].value()
    );

    store.delete_experiment(&"E".to_string());
    assert!(!store.fetch_experiments().iter().any(|n| n == "E"));
    assert!(store
        .fetch_all_instances_of_experiment_version(&version)
        .is_empty());
    assert!(store.fetch_all_runs_of_instance(&instance).is_empty());
}

#[test]
fn generated_ids_are_sixteen_characters() {
    let id = exar::util::gen_unique_id();
    assert_eq!(16, id.chars().count());
    let other = exar::util::gen_unique_id();
    assert_eq!(16, other.chars().count());
}
