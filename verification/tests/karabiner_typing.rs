use handy::karabiner_typing::{
    registration_start, registration_step, submit_key, typing_options, AutoSubmitKey,
    HelperStatus, RegistrationAction, RegistrationEvent, RegistrationState, RegistrationStatus,
    SubmitKey,
};

fn finish_err(msg: &str) -> RegistrationAction {
    RegistrationAction::Finish(Err(msg.to_string()))
}

/// Runs the protocol on a list of answers, returning the final action.
fn run(answers: Vec<RegistrationEvent>) -> RegistrationAction {
    let (mut state, mut action) = registration_start();
    assert_eq!(action, RegistrationAction::QueryHelperStatus);
    for event in answers {
        let (s, a) = registration_step(state, event);
        state = s;
        action = a;
        if let RegistrationAction::Finish(_) = action {
            assert_eq!(state, RegistrationState::Done);
            return action;
        }
    }
    panic!("protocol did not finish");
}

#[test]
fn ready_helper_is_used_at_once() {
    assert_eq!(run(vec![RegistrationEvent::HelperStatus(HelperStatus::Ready)]), RegistrationAction::Finish(Ok(())));
}

#[test]
fn rejected_helper_reports_reason() {
    let r = run(vec![RegistrationEvent::HelperStatus(HelperStatus::Rejected("bad signature".to_string()))]);
    assert_eq!(r, finish_err("Karabiner input helper rejected Handy: bad signature"));
}

#[test]
fn enabled_registration_is_accepted() {
    let r = run(vec![
        RegistrationEvent::HelperStatus(HelperStatus::NotRunning),
        RegistrationEvent::RegistrationStatus(Ok(RegistrationStatus::Enabled)),
    ]);
    assert_eq!(r, RegistrationAction::Finish(Ok(())));
}

#[test]
fn approval_needed_is_reported() {
    let r = run(vec![
        RegistrationEvent::HelperStatus(HelperStatus::NotRunning),
        RegistrationEvent::RegistrationStatus(Ok(RegistrationStatus::RequiresApproval)),
    ]);
    assert_eq!(r, finish_err("Karabiner input helper requires approval in System Settings > General > Login Items"));
}

#[test]
fn missing_helper_is_reported() {
    let r = run(vec![
        RegistrationEvent::HelperStatus(HelperStatus::NotRunning),
        RegistrationEvent::RegistrationStatus(Ok(RegistrationStatus::NotFound)),
    ]);
    assert_eq!(
        r,
        finish_err("Karabiner input helper is unavailable; locally signed builds require `bun run install:karabiner-helper-local`")
    );
}

#[test]
fn status_query_error_is_passed_on() {
    let r = run(vec![
        RegistrationEvent::HelperStatus(HelperStatus::NotRunning),
        RegistrationEvent::RegistrationStatus(Err("service down".to_string())),
    ]);
    assert_eq!(r, finish_err("service down"));
}

#[test]
fn unregistered_helper_is_registered_and_rechecked() {
    let (state, action) = registration_step(
        RegistrationState::AwaitingRegistrationStatus,
        RegistrationEvent::RegistrationStatus(Ok(RegistrationStatus::NotRegistered)),
    );
    assert_eq!((state, action), (RegistrationState::AwaitingRegistration, RegistrationAction::RegisterHelper));
    let (state, action) = registration_step(state, RegistrationEvent::Registered(Ok(())));
    assert_eq!((state, action), (RegistrationState::AwaitingRecheck, RegistrationAction::QueryRegistrationStatus));
    let (state, action) = registration_step(state, RegistrationEvent::RegistrationStatus(Ok(RegistrationStatus::Enabled)));
    assert_eq!((state, action), (RegistrationState::Done, RegistrationAction::Finish(Ok(()))));
}

#[test]
fn registration_then_approval_needed() {
    let r = run(vec![
        RegistrationEvent::HelperStatus(HelperStatus::NotRunning),
        RegistrationEvent::RegistrationStatus(Ok(RegistrationStatus::NotRegistered)),
        RegistrationEvent::Registered(Ok(())),
        RegistrationEvent::RegistrationStatus(Ok(RegistrationStatus::RequiresApproval)),
    ]);
    assert_eq!(r, finish_err("Karabiner input helper was registered; approve it in System Settings > General > Login Items"));
}

#[test]
fn registration_failures_are_passed_on() {
    let r = run(vec![
        RegistrationEvent::HelperStatus(HelperStatus::NotRunning),
        RegistrationEvent::RegistrationStatus(Ok(RegistrationStatus::NotRegistered)),
        RegistrationEvent::Registered(Err("denied".to_string())),
    ]);
    assert_eq!(r, finish_err("denied"));
    let r = run(vec![
        RegistrationEvent::HelperStatus(HelperStatus::NotRunning),
        RegistrationEvent::RegistrationStatus(Ok(RegistrationStatus::NotRegistered)),
        RegistrationEvent::Registered(Ok(())),
        RegistrationEvent::RegistrationStatus(Err("lost".to_string())),
    ]);
    assert_eq!(r, finish_err("lost"));
}

#[test]
fn submit_key_follows_setting() {
    assert_eq!(submit_key(false, AutoSubmitKey::Enter), None);
    assert_eq!(submit_key(true, AutoSubmitKey::Enter), Some(SubmitKey::Enter));
    assert_eq!(submit_key(true, AutoSubmitKey::CtrlEnter), Some(SubmitKey::ControlEnter));
    assert_eq!(submit_key(true, AutoSubmitKey::CmdEnter), Some(SubmitKey::CommandEnter));
}

#[test]
fn typing_options_use_one_millisecond_timing() {
    let o = typing_options(true, AutoSubmitKey::CmdEnter);
    assert_eq!((o.key_down_ms, o.inter_key_ms, o.submit), (1, 1, Some(SubmitKey::CommandEnter)));
    let o = typing_options(false, AutoSubmitKey::CmdEnter);
    assert_eq!(o.submit, None);
}
