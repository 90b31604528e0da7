use epithet::EpithetError;
use epithet::config::Execution;
use epithet::sequencer::ExecutionRun;
use epithet::sequencer::Outcome;

fn strs(v: &[&str]) -> Vec<String> {
    v.iter().map(|s| s.to_string()).collect()
}

fn drive(run: &mut ExecutionRun, statuses: &[Option<i32>]) -> Vec<Vec<String>> {
    let mut invoked = Vec::new();
    let mut i = 0;
    while let Some(cmd) = run.next_command() {
        invoked.push(cmd.clone());
        run.report(statuses[i]);
        i += 1;
    }
    invoked
}

#[test]
fn and_chain_stops_at_first_failure_with_its_code() {
    let e = Execution::And(strs(&["one", "two", "three"]));
    let mut run = e.prepare(&[], &[]).unwrap();
    let invoked = drive(&mut run, &[Some(0), Some(7), Some(0)]);
    assert_eq!(invoked, vec![strs(&["one"]), strs(&["two"])]);
    assert_eq!(run.outcome, Some(Outcome::Terminate(7)));
}

#[test]
fn and_chain_succeeds_when_every_item_succeeds() {
    let e = Execution::And(strs(&["one", "two"]));
    let mut run = e.prepare(&[], &[]).unwrap();
    let invoked = drive(&mut run, &[Some(0), Some(0)]);
    assert_eq!(invoked.len(), 2);
    assert_eq!(run.outcome, Some(Outcome::Success));
}

#[test]
fn or_chain_stops_at_first_success() {
    let e = Execution::Or(strs(&["one", "two", "three"]));
    let mut run = e.prepare(&[], &[]).unwrap();
    let invoked = drive(&mut run, &[Some(3), Some(0), Some(0)]);
    assert_eq!(invoked, vec![strs(&["one"]), strs(&["two"])]);
    assert_eq!(run.outcome, Some(Outcome::Success));
}

#[test]
fn or_chain_of_failures_ends_with_last_code() {
    let e = Execution::Or(strs(&["one", "two"]));
    let mut run = e.prepare(&[], &[]).unwrap();
    let invoked = drive(&mut run, &[Some(3), Some(5)]);
    assert_eq!(invoked.len(), 2);
    assert_eq!(run.outcome, Some(Outcome::Terminate(5)));
}

#[test]
fn signal_termination_counts_as_exit_code_one() {
    let e = Execution::Command("one".to_string());
    let mut run = e.prepare(&[], &[]).unwrap();
    let invoked = drive(&mut run, &[None]);
    assert_eq!(invoked, vec![strs(&["one"])]);
    assert_eq!(run.outcome, Some(Outcome::Terminate(1)));
}

#[test]
fn single_command_failure_propagates_its_code() {
    let e = Execution::Command("one {0}".to_string());
    let mut run = e.prepare(&strs(&["x"]), &[]).unwrap();
    let invoked = drive(&mut run, &[Some(2)]);
    assert_eq!(invoked, vec![strs(&["one", "x"])]);
    assert_eq!(run.outcome, Some(Outcome::Terminate(2)));
}

#[test]
fn pipeline_is_rejected() {
    let e = Execution::Pipeline(strs(&["a", "b"]));
    let r = e.prepare(&[], &[]);
    assert!(matches!(r, Err(EpithetError::PipelineUnsupported)));
    assert_eq!(
        EpithetError::PipelineUnsupported.message(),
        "Pipeline executions are not supported"
    );
}

#[test]
fn empty_chain_is_immediately_successful() {
    let e = Execution::And(Vec::new());
    let mut run = e.prepare(&[], &[]).unwrap();
    let invoked = drive(&mut run, &[]);
    assert!(invoked.is_empty());
    assert_eq!(run.outcome, Some(Outcome::Success));
}
