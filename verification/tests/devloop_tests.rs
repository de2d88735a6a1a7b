use densky::orchestrator::{DevAction, DevEvent, DevOrchestrator, Phase};
use densky::scheduler::{should_forward, Scheduler, TickStep};
use densky::watch::{WatchEvent, WatchKind};

#[test]
fn scheduler_polls_once_per_interval() {
    let mut s = Scheduler::new(500, 50);
    // nine ticks accumulate 50..=450: no poll yet
    for _ in 0..9 {
        assert_eq!(s.on_tick(false), TickStep::Wait);
    }
    // the tenth tick reaches 500; the eleventh fires the poll
    assert_eq!(s.on_tick(false), TickStep::Wait);
    assert_eq!(s.on_tick(false), TickStep::RunPoll);
    // and the accumulator restarted
    assert_eq!(s.on_tick(false), TickStep::Wait);
}

#[test]
fn scheduler_stops_on_the_very_tick_that_sees_shutdown() {
    let mut s = Scheduler::new(500, 50);
    for _ in 0..3 {
        s.on_tick(false);
    }
    let before = s;
    assert_eq!(s.on_tick(true), TickStep::Stop);
    // stopping leaves no partial state behind
    assert_eq!(s, before);
}

#[test]
fn only_nonempty_batches_are_forwarded() {
    let none: Vec<WatchEvent> = vec![];
    assert!(!should_forward(&none));
    let some = vec![WatchEvent { kind: WatchKind::Create, path: String::from("/r/a") }];
    assert!(should_forward(&some));
}

#[test]
fn session_runs_and_shuts_down_cleanly() {
    let mut o = DevOrchestrator::new(2);
    assert_eq!(o.phase, Phase::Starting);

    let acts = o.step(DevEvent::InitialBuildOk);
    assert_eq!(acts, vec![DevAction::SpawnChild]);
    assert_eq!(o.phase, Phase::Running);
    assert!(o.child_running);

    let acts = o.step(DevEvent::Batch);
    assert_eq!(acts, vec![DevAction::Rebuild, DevAction::NotifyReload]);
    assert_eq!(o.phase, Phase::Running);

    let acts = o.step(DevEvent::RebuildFailed);
    assert_eq!(acts, vec![DevAction::ReportError]);
    assert_eq!(o.phase, Phase::Running);

    let acts = o.step(DevEvent::Interrupt);
    assert_eq!(
        acts,
        vec![DevAction::BroadcastShutdown, DevAction::KillChild, DevAction::JoinThreads]
    );
    assert_eq!(o.phase, Phase::ShuttingDown);
    assert!(!o.child_running);

    let acts = o.step(DevEvent::ShutdownComplete);
    assert!(acts.is_empty());
    assert_eq!(o.phase, Phase::Terminal);
    assert!(!o.failed);
}

#[test]
fn failed_initial_build_never_spawns_but_still_stops_threads() {
    let mut o = DevOrchestrator::new(2);
    let acts = o.step(DevEvent::InitialBuildFailed);
    assert!(!acts.contains(&DevAction::SpawnChild));
    assert_eq!(acts, vec![DevAction::BroadcastShutdown, DevAction::JoinThreads]);
    assert_eq!(o.phase, Phase::ShuttingDown);
    assert!(o.failed);
    assert!(!o.child_running);

    let acts = o.step(DevEvent::ShutdownComplete);
    assert!(acts.is_empty());
    assert_eq!(o.phase, Phase::Terminal);
}

#[test]
fn unexpected_events_are_ignored() {
    let mut o = DevOrchestrator::new(1);
    let before = o;
    assert!(o.step(DevEvent::Batch).is_empty());
    assert!(o.step(DevEvent::Interrupt).is_empty());
    assert!(o.step(DevEvent::ShutdownComplete).is_empty());
    assert_eq!(o, before);
}

#[test]
fn fanout_covers_every_listener() {
    let o = DevOrchestrator::new(3);
    assert_eq!(o.shutdown_fanout().len(), 3);
    let none = DevOrchestrator::new(0);
    assert_eq!(none.shutdown_fanout().len(), 0);
}
