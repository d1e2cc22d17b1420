use vstd::prelude::*;

use crate::errors::Error;
use crate::experiment::{
    assignment_ok, check_assignment, value_fits, ExperimentInstance, ExperimentVersion,
};
use crate::store::{vv_pairs, RunRow, Store};
use crate::variable::{accepts_spec, var_names, GenericValue, VariableValue};

verus! {

/// Does some output variable of the version bear the name, admit the
/// value's variant, and is the value well-formed? Exactly then a
/// measurement for it is accepted.
pub open spec fn measurement_fits(
    version: ExperimentVersion,
    name: Seq<char>,
    value: GenericValue,
) -> bool {
    exists|j: int|
        0 <= j < version.output_variables@.len() && (#[trigger] version.output_variables@[j]).name@
            == name && accepts_spec(version.output_variables@[j].data_type, value) && value.wf()
}

/// A specific run of an instance: the measured output values, the
/// timestamp of the execution, and the instance the run belongs to.
#[derive(Debug)]
pub struct ExperimentRun {
    pub experiment_instance: ExperimentInstance,
    pub date: i64,
    pub id: String,
    pub measurements: Vec<VariableValue>,
}

impl ExperimentRun {
    pub fn new(
        experiment_instance: ExperimentInstance,
        date: i64,
        id: String,
        measurements: Vec<VariableValue>,
    ) -> (r: ExperimentRun)
        ensures
            r == (ExperimentRun { experiment_instance, date, id, measurements }),
    {
        ExperimentRun { experiment_instance, date, id, measurements }
    }

    pub fn experiment_instance(&self) -> (r: &ExperimentInstance)
        ensures
            r == &self.experiment_instance,
    {
        &self.experiment_instance
    }

    pub fn date(&self) -> (r: i64)
        ensures
            r == self.date,
    {
        self.date
    }

    pub fn id(&self) -> (r: &str)
        ensures
            r@ == self.id@,
    {
        self.id.as_str()
    }

    pub fn measurements(&self) -> (r: &Vec<VariableValue>)
        ensures
            r == &self.measurements,
    {
        &self.measurements
    }
}

/// The measurement accumulator handed to a run's execution: measurements
/// for the instance's output variables are reported through it, one at a
/// time, and validated when the run completes.
#[derive(Debug)]
pub struct RunContext {
    pub experiment_instance: ExperimentInstance,
    pub measurements: Vec<VariableValue>,
}

impl RunContext {
    /// An empty accumulator bound to the instance.
    pub fn from_instance(experiment_instance: &ExperimentInstance) -> (r: RunContext)
        ensures
            r.experiment_instance.iveq(*experiment_instance),
            r.measurements@.len() == 0,
    {
        RunContext {
            experiment_instance: experiment_instance.clone(),
            measurements: Vec::new(),
        }
    }

    /// Records a measurement for the output variable called
    /// `variable_name`. Succeeds exactly when an output variable bears the
    /// name, admits the value's variant, and the value is well-formed;
    /// otherwise it fails with the corresponding error, changing nothing.
    pub fn add_measurement(&mut self, variable_name: &str, value: GenericValue) -> (r: Result<
        (),
        Error,
    >)
        requires
            old(self).experiment_instance.experiment_version.sets_wf(),
        ensures
            final(self).experiment_instance == old(self).experiment_instance,
            r is Ok <==> measurement_fits(
                old(self).experiment_instance.experiment_version,
                variable_name@,
                value,
            ),
            match r {
                Ok(_) => {
                    &&& final(self).measurements@.len() == old(self).measurements@.len() + 1
                    &&& final(self).measurements@ == old(self).measurements@.push(
                        final(self).measurements@.last(),
                    )
                    &&& value_fits(
                        final(self).measurements@.last(),
                        old(self).experiment_instance.experiment_version.output_variables@,
                    )
                    &&& final(self).measurements@.last().variable.name@ == variable_name@
                    &&& final(self).measurements@.last().value == value
                },
                Err(e) => *final(self) == *old(self) && (e == Error::UnknownVariable || e
                    == Error::TypeMismatch || e == Error::InvalidValue),
            },
    {
        let ghost outputs = self.experiment_instance.experiment_version.output_variables@;
        let var = match crate::experiment::find_variable_by_name(
            &self.experiment_instance.experiment_version.output_variables,
            variable_name,
        ) {
            Some(v) => v,
            None => {
                proof {
                    assert forall|j: int|
                        0 <= j < outputs.len() implies (#[trigger] outputs[j]).name@
                        != variable_name@ by {
                        assert(var_names(outputs)[j] == outputs[j].name@);
                    }
                }
                return Err(Error::UnknownVariable);
            },
        };
        proof {
            crate::experiment::lemma_concat_names_distinct(
                self.experiment_instance.experiment_version.input_variables@,
                self.experiment_instance.experiment_version.output_variables@,
            );
        }
        if !var.accepts(&value) {
            proof {
                assert(outputs.contains(*var));
                if measurement_fits(
                    self.experiment_instance.experiment_version,
                    variable_name@,
                    value,
                ) {
                    let j = choose|j: int|
                        0 <= j < outputs.len() && (#[trigger] outputs[j]).name@ == variable_name@
                            && accepts_spec(outputs[j].data_type, value) && value.wf();
                    let jv = choose|jv: int| 0 <= jv < outputs.len() && outputs[jv] == *var;
                    if j != jv {
                        assert(var_names(outputs)[j] == outputs[j].name@);
                        assert(var_names(outputs)[jv] == outputs[jv].name@);
                    }
                }
            }
            return Err(Error::TypeMismatch);
        }
        if !value.is_wf() {
            return Err(Error::InvalidValue);
        }
        let measured = VariableValue { variable: var.clone(), value };
        proof {
            assert(self.experiment_instance.experiment_version.output_variables@.contains(*var));
            let jv = choose|jv: int| 0 <= jv < outputs.len() && outputs[jv] == *var;
            assert(outputs[jv].name@ == variable_name@);
        }
        self.measurements.push(measured);
        Ok(())
    }

    /// Validates the accumulated measurements and turns them into a run:
    /// succeeds exactly when the measured variables cover the version's
    /// output variables, with no variable missing, duplicated or
    /// unexpected, and every value well-formed for its variable.
    pub fn to_run(self, date: i64, id: String) -> (r: Result<ExperimentRun, Error>)
        requires
            self.experiment_instance.experiment_version.sets_wf(),
        ensures
            match r {
                Ok(run) => assignment_ok(
                    self.experiment_instance.experiment_version.output_variables@,
                    self.measurements@,
                ) && run == (ExperimentRun {
                    experiment_instance: self.experiment_instance,
                    date,
                    id,
                    measurements: self.measurements,
                }),
                Err(e) => !assignment_ok(
                    self.experiment_instance.experiment_version.output_variables@,
                    self.measurements@,
                ) && (e == Error::MeasurementMismatch || e == Error::TypeMismatch || e
                    == Error::InvalidValue),
            },
    {
        proof {
            crate::experiment::lemma_concat_names_distinct(
                self.experiment_instance.experiment_version.input_variables@,
                self.experiment_instance.experiment_version.output_variables@,
            );
        }
        match check_assignment(
            &self.experiment_instance.experiment_version.output_variables,
            &self.measurements,
            Error::MeasurementMismatch,
        ) {
            Ok(_) => {},
            Err(e) => {
                return Err(e);
            },
        }
        Ok(
            ExperimentRun {
                experiment_instance: self.experiment_instance,
                date,
                id,
                measurements: self.measurements,
            },
        )
    }

    /// The Run Recorder: validates the accumulated measurements and, when
    /// they cover the output variables exactly, persists the run under a
    /// fresh id with the current timestamp, atomically. A measurement set
    /// that misses, duplicates or adds an output variable is rejected and
    /// no run row or measurement row is written; a failure of the id
    /// generator also leaves the store exactly as it was.
    pub fn record(self, store: &mut Store) -> (r: Result<ExperimentRun, Error>)
        requires
            old(store).wf(),
            old(store).has_version(self.experiment_instance.experiment_version),
            old(store).has_instance(self.experiment_instance),
            self.experiment_instance.experiment_version.sets_wf(),
        ensures
            final(store).wf(),
            final(store).experiments == old(store).experiments,
            final(store).versions == old(store).versions,
            final(store).variables == old(store).variables,
            final(store).instances == old(store).instances,
            final(store).in_values == old(store).in_values,
            old(store).runs@.is_prefix_of(final(store).runs@),
            final(store).runs@.len() <= old(store).runs@.len() + 1,
            !assignment_ok(
                self.experiment_instance.experiment_version.output_variables@,
                self.measurements@,
            ) ==> *final(store) == *old(store) && r is Err && r != Err::<ExperimentRun, Error>(
                Error::DuplicateId,
            ),
            assignment_ok(
                self.experiment_instance.experiment_version.output_variables@,
                self.measurements@,
            ) ==> (r is Err ==> r == Err::<ExperimentRun, Error>(Error::DuplicateId)
                && *final(store) == *old(store)),
            r == Err::<ExperimentRun, Error>(Error::DuplicateId) ==> old(store).runs@.len() > 0,
            r matches Ok(run) ==> {
                &&& run.experiment_instance == self.experiment_instance
                &&& run.measurements == self.measurements
                &&& final(store).runs@ == old(store).runs@.push(
                    (RunRow {
                        id: run.id,
                        instance_id: self.experiment_instance.id,
                        date: run.date,
                    }),
                )
                &&& crate::store::meas_pairs(final(store).meas_of_run(run.id@)) == vv_pairs(
                    self.measurements@,
                )
                &&& !old(store).run_ids().contains(run.id@)
            },
    {
        let date = crate::util::now_timestamp();
        let id = crate::util::gen_unique_id();
        let run = match self.to_run(date, id) {
            Ok(run) => run,
            Err(e) => {
                proof {
                    crate::sets::lemma_prefix_self(store.runs@);
                }
                return Err(e);
            },
        };
        let r = match store.insert_new_run(&run) {
            Ok(_) => Ok(run),
            Err(e) => Err(e),
        };
        proof {
            assert(old(store).runs@.is_prefix_of(store.runs@)) by {
                assert(old(store).runs@ =~= store.runs@.subrange(
                    0,
                    old(store).runs@.len() as int,
                ));
            }
        }
        r
    }
}

} // verus!
