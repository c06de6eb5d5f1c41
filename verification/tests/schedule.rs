use time_sigil::cancel::{settle, Raced};
use time_sigil::errors::{Error, SchedulerError};
use time_sigil::schedule::{JobId, Schedule};

/// A removal as the actor makes it, with an engine that does as asked.
fn remove(schedule: &mut Schedule, id: JobId) -> Result<(), Error> {
    schedule.on_remove(id)?;
    schedule.on_removed(id, Ok(()))
}

#[test]
fn schedule_round_trip() {
    let mut schedule = Schedule::new();
    let id = JobId(0x1234_5678_9abc_def0_1122_3344_5566_7788);
    assert_eq!(schedule.on_added(Ok(id)), Ok(id));
    assert!(schedule.knows(id));
    assert_eq!(schedule.len(), 1);
    assert_eq!(schedule.on_remove(id), Ok(()));
    // Asking changes nothing: the job is struck when the engine has answered.
    assert!(schedule.knows(id));
    assert_eq!(schedule.on_removed(id, Ok(())), Ok(()));
    assert!(!schedule.knows(id));
    assert_eq!(schedule.len(), 0);
}

#[test]
fn removing_an_unknown_job_is_a_scheduler_error() {
    let mut schedule = Schedule::new();
    assert_eq!(
        schedule.on_remove(JobId(7)),
        Err(Error::Scheduler(SchedulerError::UnknownJob))
    );
    assert_eq!(schedule.on_added(Ok(JobId(8))), Ok(JobId(8)));
    assert_eq!(
        remove(&mut schedule, JobId(7)),
        Err(Error::Scheduler(SchedulerError::UnknownJob))
    );
    assert!(schedule.knows(JobId(8)));
    assert_eq!(schedule.len(), 1);
}

#[test]
fn a_job_is_removed_only_once() {
    let mut schedule = Schedule::new();
    assert_eq!(schedule.on_added(Ok(JobId(1))), Ok(JobId(1)));
    assert_eq!(schedule.on_added(Ok(JobId(2))), Ok(JobId(2)));
    assert_eq!(schedule.on_added(Ok(JobId(3))), Ok(JobId(3)));
    assert_eq!(remove(&mut schedule, JobId(2)), Ok(()));
    assert_eq!(
        remove(&mut schedule, JobId(2)),
        Err(Error::Scheduler(SchedulerError::UnknownJob))
    );
    assert!(schedule.knows(JobId(1)));
    assert!(schedule.knows(JobId(3)));
    assert_eq!(schedule.len(), 2);
}

#[test]
fn an_id_is_registered_once() {
    let mut schedule = Schedule::new();
    assert_eq!(schedule.on_added(Ok(JobId(5))), Ok(JobId(5)));
    assert_eq!(schedule.on_added(Ok(JobId(5))), Ok(JobId(5)));
    assert_eq!(schedule.len(), 1);
}

#[test]
fn rejected_job_registers_nothing() {
    let mut schedule = Schedule::new();
    assert_eq!(
        schedule.on_added(Err(SchedulerError::InvalidExpression)),
        Err(Error::Scheduler(SchedulerError::InvalidExpression))
    );
    assert_eq!(
        schedule.on_added(Err(SchedulerError::Engine)),
        Err(Error::Scheduler(SchedulerError::Engine))
    );
    assert_eq!(schedule.len(), 0);
}

#[test]
fn a_job_that_the_engine_keeps_stays_registered() {
    let mut schedule = Schedule::new();
    assert_eq!(schedule.on_added(Ok(JobId(4))), Ok(JobId(4)));
    assert_eq!(schedule.on_remove(JobId(4)), Ok(()));
    assert_eq!(
        schedule.on_removed(JobId(4), Err(SchedulerError::Engine)),
        Err(Error::Scheduler(SchedulerError::Engine))
    );
    assert!(schedule.knows(JobId(4)));
    assert_eq!(schedule.len(), 1);
    // The removal can be asked for again, and then goes through.
    assert_eq!(remove(&mut schedule, JobId(4)), Ok(()));
    assert!(!schedule.knows(JobId(4)));
    assert_eq!(schedule.len(), 0);
}

#[test]
fn removal_of_an_id_that_is_not_held_strikes_nothing() {
    let mut schedule = Schedule::new();
    assert_eq!(schedule.on_added(Ok(JobId(1))), Ok(JobId(1)));
    assert_eq!(schedule.on_removed(JobId(2), Ok(())), Ok(()));
    assert!(schedule.knows(JobId(1)));
    assert_eq!(schedule.len(), 1);
}

#[test]
fn cancelled_loop_ends_well() {
    assert_eq!(settle(Raced::Cancelled), Ok(()));
}

#[test]
fn finished_loop_hands_on_its_outcome() {
    assert_eq!(settle(Raced::Finished(Ok(()))), Ok(()));
    assert_eq!(
        settle(Raced::Finished(Err(Error::ChannelClosed))),
        Err(Error::ChannelClosed)
    );
}

#[test]
fn missing_value_means_closed_channel() {
    assert_eq!(Error::closed_unless(Some(3)), Ok(3));
    assert_eq!(Error::closed_unless::<u8>(None), Err(Error::ChannelClosed));
}
