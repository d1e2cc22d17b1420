use exar::experiment::{ExperimentInstance, ExperimentVersion};
use exar::run::RunContext;
use exar::store::Store;
use exar::variable::{DataType, GenericValue, Variable};
use exar::Error;

fn sample_version(store: &mut Store, name: &str, description: &str) -> ExperimentVersion {
    ExperimentVersion::get_current_version(
        store,
        name.to_string(),
        description.to_string(),
        vec!["researcher".to_string()],
        vec![Variable::new(
            "in".to_string(),
            "the input".to_string(),
            DataType::Label,
        )],
        vec![Variable::new(
            "out".to_string(),
            "the output".to_string(),
            DataType::Number,
        )],
    )
    .expect("version resolution failed")
}

fn sample_instance(store: &mut Store, version: &ExperimentVersion, value: &str) -> ExperimentInstance {
    version
        .make_instance(
            store,
            vec![("in".to_string(), GenericValue::String(value.to_string()))],
        )
        .expect("instance resolution failed")
}

fn record_run(store: &mut Store, instance: &ExperimentInstance, value: &str) {
    let mut context = RunContext::from_instance(instance);
    context
        .add_measurement("out", GenericValue::Numeric(value.to_string()))
        .expect("measurement rejected");
    context.record(store).expect("run recording failed");
}

#[test]
fn deleting_a_version_keeps_its_siblings() {
    let mut store = Store::new();
    let first = sample_version(&mut store, "scoped", "description one");
    let second = sample_version(&mut store, "scoped", "description two");
    let first_instance = sample_instance(&mut store, &first, "a");
    let second_instance = sample_instance(&mut store, &second, "a");
    record_run(&mut store, &first_instance, "1");
    record_run(&mut store, &second_instance, "2");

    store.delete_experiment_version(&first);

    // the deleted version's data is gone, the sibling's remains
    let versions = store.fetch_all_experiment_versions_by_name(&"scoped".to_string());
    assert_eq!(1, versions.len());
    assert_eq!(second.id(), versions[0].id());
    assert!(store
        .fetch_all_instances_of_experiment_version(&first)
        .is_empty());
    assert_eq!(
        1,
        store
            .fetch_all_instances_of_experiment_version(&second)
            .len()
    );
    assert!(store.fetch_all_runs_of_instance(&first_instance).is_empty());
    assert_eq!(1, store.fetch_all_runs_of_instance(&second_instance).len());
    // the experiment row itself stays
    assert!(store.fetch_experiments().iter().any(|n| n == "scoped"));
}

#[test]
fn deleting_an_instance_keeps_the_others() {
    let mut store = Store::new();
    let version = sample_version(&mut store, "instances", "description");
    let first = sample_instance(&mut store, &version, "a");
    let second = sample_instance(&mut store, &version, "b");
    record_run(&mut store, &first, "1");
    record_run(&mut store, &second, "2");

    store.delete_experiment_instance(&first);

    let remaining = store.fetch_all_instances_of_experiment_version(&version);
    assert_eq!(1, remaining.len());
    assert_eq!(second.id(), remaining[0].id());
    assert!(store.fetch_all_runs_of_instance(&first).is_empty());
    assert_eq!(1, store.fetch_all_runs_of_instance(&second).len());
}

#[test]
fn runs_are_filtered_by_date_range() {
    let mut store = Store::new();
    let version = store
        .resolve_version(
            "dated".to_string(),
            "description".to_string(),
            vec!["r".to_string()],
            vec![Variable::new(
                "in".to_string(),
                "input".to_string(),
                DataType::Label,
            )],
            vec![Variable::new(
                "out".to_string(),
                "output".to_string(),
                DataType::Number,
            )],
            "tag".to_string(),
            5,
            "version-id".to_string(),
        )
        .expect("version resolution failed");
    let instance = sample_instance(&mut store, &version, "a");
    // record two runs, then move one into the past
    record_run(&mut store, &instance, "1");
    record_run(&mut store, &instance, "2");
    let now = store.runs[1].date;
    store.runs[0].date = now - 100;

    let early = store.fetch_runs_in_date_range(&instance, now - 150, now - 50);
    assert_eq!(1, early.len());
    assert_eq!(store.runs[0].id, early[0].id().to_string());
    let late = store.fetch_runs_in_date_range(&instance, now, now + 1);
    assert_eq!(1, late.len());
    let all = store.fetch_runs_in_date_range(&instance, now - 150, now + 1);
    assert_eq!(2, all.len());
}

#[test]
fn duplicate_ids_are_refused() {
    let mut store = Store::new();
    store
        .resolve_version(
            "one".to_string(),
            "description".to_string(),
            vec!["r".to_string()],
            vec![],
            vec![],
            "tag".to_string(),
            1,
            "taken".to_string(),
        )
        .expect("first resolution failed");
    let clash = store.resolve_version(
        "two".to_string(),
        "description".to_string(),
        vec!["r".to_string()],
        vec![],
        vec![],
        "tag".to_string(),
        2,
        "taken".to_string(),
    );
    assert_eq!(Err(Error::DuplicateId), clash.map(|_| ()));
    assert_eq!(1, store.versions.len());
}

#[test]
fn instance_requests_are_validated() {
    let mut store = Store::new();
    let version = sample_version(&mut store, "validated", "description");

    // unknown variable name
    let unknown = version.make_instance(
        &mut store,
        vec![("nope".to_string(), GenericValue::String("a".to_string()))],
    );
    assert_eq!(Err(Error::UnknownVariable), unknown.map(|_| ()));

    // wrong kind of value for the variable
    let mismatch = version.make_instance(
        &mut store,
        vec![("in".to_string(), GenericValue::Numeric("1".to_string()))],
    );
    assert_eq!(Err(Error::TypeMismatch), mismatch.map(|_| ()));

    // malformed numeric text
    let mut numeric_store = Store::new();
    let numeric_version = ExperimentVersion::get_current_version(
        &mut numeric_store,
        "numeric".to_string(),
        "description".to_string(),
        vec!["r".to_string()],
        vec![Variable::new(
            "x".to_string(),
            "a number".to_string(),
            DataType::Number,
        )],
        vec![Variable::new(
            "out".to_string(),
            "output".to_string(),
            DataType::Number,
        )],
    )
    .expect("version resolution failed");
    let invalid = numeric_version.make_instance(
        &mut numeric_store,
        vec![("x".to_string(), GenericValue::Numeric("not a number".to_string()))],
    );
    assert_eq!(Err(Error::InvalidValue), invalid.map(|_| ()));

    // a missing input variable
    let missing = version.make_instance(&mut store, vec![]);
    assert_eq!(Err(Error::InputVariableMismatch), missing.map(|_| ()));

    assert!(store.instances.is_empty());
    assert!(numeric_store.instances.is_empty());
}

#[test]
fn unknown_runs_are_reported() {
    let mut store = exar::archive::ArchiveStore::new();
    let experiment = exar::archive::Experiment::new(
        &mut store,
        "lookup".to_string(),
        "description".to_string(),
        "researcher".to_string(),
        vec![exar::variables::VariableTemplate::new(
            "v".to_string(),
            "a variable".to_string(),
            "unit".to_string(),
        )],
    )
    .expect("experiment creation failed");
    let r = experiment.measurements_for_run(&store, "no-such-run");
    assert_eq!(Err(Error::UnknownRun), r.map(|_| ()));
    assert!(exar::archive::Experiment::from_run_id(&store, "no-such-run").is_none());
}
