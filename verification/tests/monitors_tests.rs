use nirimap::monitors::{plan_reconcile, MonitorStep};

fn s(v: &str) -> String {
    v.to_string()
}

#[test]
fn reconcile_drops_vanished_and_creates_missing() {
    let current = vec![s("DP-1"), s("HDMI-1")];
    let live = vec![Some(s("DP-1")), None, Some(s("eDP-1")), Some(s("eDP-1"))];
    let plan = plan_reconcile(&current, &live);
    assert_eq!(plan.keep, vec![true, false]);
    assert_eq!(
        plan.steps,
        vec![MonitorStep::Present, MonitorStep::AwaitName, MonitorStep::Create, MonitorStep::Present]
    );
}

#[test]
fn reconcile_with_nothing_live() {
    let plan = plan_reconcile(&vec![s("DP-1")], &vec![]);
    assert_eq!(plan.keep, vec![false]);
    assert!(plan.steps.is_empty());
    let plan = plan_reconcile(&vec![], &vec![Some(s("DP-1"))]);
    assert!(plan.keep.is_empty());
    assert_eq!(plan.steps, vec![MonitorStep::Create]);
}

#[test]
fn reconcile_gives_each_live_output_one_minimap() {
    let current = vec![s("DP-1"), s("HDMI-1"), s("DP-2")];
    let live = vec![Some(s("DP-2")), Some(s("eDP-1")), None, Some(s("DP-3")), Some(s("eDP-1")), Some(s("DP-2"))];
    let plan = plan_reconcile(&current, &live);
    let mut outputs: Vec<String> = current
        .iter()
        .zip(plan.keep.iter())
        .filter(|(_, keep)| **keep)
        .map(|(o, _)| o.clone())
        .collect();
    for (step, monitor) in plan.steps.iter().zip(live.iter()) {
        match step {
            MonitorStep::Create => outputs.push(monitor.clone().unwrap()),
            MonitorStep::AwaitName => assert!(monitor.is_none()),
            MonitorStep::Present => assert!(monitor.is_some()),
        }
    }
    outputs.sort();
    assert_eq!(outputs, vec![s("DP-2"), s("DP-3"), s("eDP-1")]);
}
