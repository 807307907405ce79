use g_flite::poll::{Phase, Poller};

#[test]
fn stub_progress_gives_three_increments_then_stops() {
    let mut p = Poller::new(10);
    let observations = [
        (0u64, Phase::Running),
        (300000, Phase::Running),
        (300000, Phase::Running),
        (700000, Phase::Running),
        (1000000, Phase::Finished),
    ];
    let mut positive = 0;
    let mut done_at = None;
    for (k, (progress, phase)) in observations.iter().enumerate() {
        let step = p.observe(*progress, *phase);
        if step.indicator_increment > 0 {
            positive += 1;
        }
        if step.done {
            done_at = Some(k);
            break;
        }
    }
    assert_eq!(positive, 3);
    assert_eq!(done_at, Some(4));
}

#[test]
fn increments_sum_to_the_whole_indicator() {
    let mut p = Poller::new(10);
    let mut total = 0u64;
    for progress in [0u64, 300000, 300000, 700000, 1000000] {
        total += p.observe(progress, Phase::Running).indicator_increment;
    }
    assert_eq!(total, 10);
}

#[test]
fn regressing_progress_advances_nothing() {
    let mut p = Poller::new(4);
    p.observe(500000, Phase::Running);
    let step = p.observe(250000, Phase::Running);
    assert_eq!(step.indicator_increment, 0);
    assert!(!step.done);
    assert_eq!(p.last_progress, 250000);
}

#[test]
fn half_a_unit_rounds_up() {
    let mut p = Poller::new(1);
    let step = p.observe(500000, Phase::Running);
    assert_eq!(step.indicator_increment, 1);
}

#[test]
fn finished_terminates_even_without_progress_change() {
    let mut p = Poller::new(5);
    p.observe(1000000, Phase::Running);
    let step = p.observe(1000000, Phase::Finished);
    assert_eq!(step.indicator_increment, 0);
    assert!(step.done);
}

#[test]
fn failure_phases_do_not_end_the_machine() {
    let mut p = Poller::new(5);
    assert!(!p.observe(200000, Phase::Failed).done);
    assert!(!p.observe(200000, Phase::Aborted).done);
    assert!(!p.observe(200000, Phase::Timeout).done);
    assert!(!p.observe(200000, Phase::Created).done);
    assert!(!p.observe(200000, Phase::Other).done);
}
