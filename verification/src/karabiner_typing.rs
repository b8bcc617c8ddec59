//! Typing text through the Karabiner input helper.
//!
//! The helper must be running, or registered as a login item and approved,
//! before it accepts text. The exchange with the helper is a small protocol:
//! the application asks what `registration_start` and `registration_step`
//! tell it to ask, feeds each answer back as a `RegistrationEvent`, and stops
//! at `Finish`. What to type with is decided by `typing_options`.

use vstd::prelude::*;

verus! {

/// The user's setting for the key that submits after typing.
#[derive(Clone, Copy, Debug, PartialEq, Eq, Structural)]
pub enum AutoSubmitKey {
    Enter,
    CtrlEnter,
    CmdEnter,
}

/// The key chord the helper presses to submit.
#[derive(Clone, Copy, Debug, PartialEq, Eq, Structural)]
pub enum SubmitKey {
    Enter,
    ControlEnter,
    CommandEnter,
}

/// Whether the helper process is up.
#[derive(Clone, Debug, PartialEq, Eq)]
pub enum HelperStatus {
    Ready,
    /// The helper is running but refused this application, with its reason.
    Rejected(String),
    NotRunning,
}

/// The helper's login-item registration.
#[derive(Clone, Copy, Debug, PartialEq, Eq, Structural)]
pub enum RegistrationStatus {
    Enabled,
    RequiresApproval,
    NotRegistered,
    NotFound,
}

/// Where the registration protocol stands: which answer it waits for.
#[derive(Clone, Copy, Debug, PartialEq, Eq, Structural)]
pub enum RegistrationState {
    AwaitingHelperStatus,
    AwaitingRegistrationStatus,
    AwaitingRegistration,
    AwaitingRecheck,
    Done,
}

/// An answer from the helper; errors come as their messages.
#[derive(Debug, PartialEq, Eq)]
pub enum RegistrationEvent {
    HelperStatus(HelperStatus),
    RegistrationStatus(Result<RegistrationStatus, String>),
    Registered(Result<(), String>),
}

/// What the application does next.
#[derive(Debug, PartialEq, Eq)]
pub enum RegistrationAction {
    QueryHelperStatus,
    QueryRegistrationStatus,
    RegisterHelper,
    /// Stop, with the outcome: `Ok` when the helper can be used, else the
    /// message to show.
    Finish(Result<(), String>),
}

/// The answer that `state` waits for has the kind of `event`.
pub open spec fn event_fits(state: RegistrationState, event: RegistrationEvent) -> bool {
    match state {
        RegistrationState::AwaitingHelperStatus => event is HelperStatus,
        RegistrationState::AwaitingRegistrationStatus => event is RegistrationStatus,
        RegistrationState::AwaitingRegistration => event is Registered,
        RegistrationState::AwaitingRecheck => event is RegistrationStatus,
        RegistrationState::Done => false,
    }
}

/// The action leads to the state that waits for its answer.
pub open spec fn action_fits(state: RegistrationState, action: RegistrationAction) -> bool {
    match action {
        RegistrationAction::QueryHelperStatus => state == RegistrationState::AwaitingHelperStatus,
        RegistrationAction::QueryRegistrationStatus => state
            == RegistrationState::AwaitingRegistrationStatus || state
            == RegistrationState::AwaitingRecheck,
        RegistrationAction::RegisterHelper => state == RegistrationState::AwaitingRegistration,
        RegistrationAction::Finish(_) => state == RegistrationState::Done,
    }
}

/// How many answers the protocol may still wait for from `state`.
pub open spec fn answers_left(state: RegistrationState) -> nat {
    match state {
        RegistrationState::AwaitingHelperStatus => 4,
        RegistrationState::AwaitingRegistrationStatus => 3,
        RegistrationState::AwaitingRegistration => 2,
        RegistrationState::AwaitingRecheck => 1,
        RegistrationState::Done => 0,
    }
}

/// The helper is usable according to this answer.
pub open spec fn reports_usable(event: RegistrationEvent) -> bool {
    event == RegistrationEvent::HelperStatus(HelperStatus::Ready) || event
        == RegistrationEvent::RegistrationStatus(Ok(RegistrationStatus::Enabled))
}

/// Whether `state` waits for an answer of the kind of `event`.
pub fn expects(state: RegistrationState, event: &RegistrationEvent) -> (r: bool)
    ensures
        r == event_fits(state, *event),
{
    match state {
        RegistrationState::AwaitingHelperStatus => matches!(event, RegistrationEvent::HelperStatus(_)),
        RegistrationState::AwaitingRegistrationStatus | RegistrationState::AwaitingRecheck => matches!(
            event,
            RegistrationEvent::RegistrationStatus(_)
        ),
        RegistrationState::AwaitingRegistration => matches!(event, RegistrationEvent::Registered(_)),
        RegistrationState::Done => false,
    }
}

/// The protocol starts by asking whether the helper is running.
pub fn registration_start() -> (r: (RegistrationState, RegistrationAction))
    ensures
        r.0 == RegistrationState::AwaitingHelperStatus,
        r.1 == RegistrationAction::QueryHelperStatus,
{
    (RegistrationState::AwaitingHelperStatus, RegistrationAction::QueryHelperStatus)
}

/// One step of the registration protocol: from the state and the helper's
/// answer, the next state and what to do. A running helper is used at once;
/// otherwise the registration is checked, the helper registered if it is
/// not, and the registration checked again.
pub fn registration_step(state: RegistrationState, event: RegistrationEvent) -> (r: (
    RegistrationState,
    RegistrationAction,
))
    requires
        event_fits(state, event),
    ensures
        action_fits(r.0, r.1),
        answers_left(r.0) < answers_left(state),
        r.1 == RegistrationAction::Finish(Ok(())) ==> reports_usable(event),
        match (state, event) {
            (
                RegistrationState::AwaitingHelperStatus,
                RegistrationEvent::HelperStatus(HelperStatus::Ready),
            ) => r.1 == RegistrationAction::Finish(Ok(())),
            (
                RegistrationState::AwaitingHelperStatus,
                RegistrationEvent::HelperStatus(HelperStatus::Rejected(error)),
            ) => r.1 matches RegistrationAction::Finish(Err(m)) && m@
                == "Karabiner input helper rejected Handy: "@ + error@,
            (
                RegistrationState::AwaitingHelperStatus,
                RegistrationEvent::HelperStatus(HelperStatus::NotRunning),
            ) => r.1 == RegistrationAction::QueryRegistrationStatus && r.0
                == RegistrationState::AwaitingRegistrationStatus,
            (
                RegistrationState::AwaitingRegistrationStatus,
                RegistrationEvent::RegistrationStatus(Ok(RegistrationStatus::Enabled)),
            ) => r.1 == RegistrationAction::Finish(Ok(())),
            (
                RegistrationState::AwaitingRegistrationStatus,
                RegistrationEvent::RegistrationStatus(Ok(RegistrationStatus::RequiresApproval)),
            ) => r.1 matches RegistrationAction::Finish(Err(m)) && m@
                == "Karabiner input helper requires approval in System Settings > General > Login Items"@,
            (
                RegistrationState::AwaitingRegistrationStatus,
                RegistrationEvent::RegistrationStatus(Ok(RegistrationStatus::NotRegistered)),
            ) => r.1 == RegistrationAction::RegisterHelper,
            (
                RegistrationState::AwaitingRegistrationStatus,
                RegistrationEvent::RegistrationStatus(Ok(RegistrationStatus::NotFound)),
            ) => r.1 matches RegistrationAction::Finish(Err(m)) && m@
                == "Karabiner input helper is unavailable; locally signed builds require `bun run install:karabiner-helper-local`"@,
            (
                RegistrationState::AwaitingRegistrationStatus,
                RegistrationEvent::RegistrationStatus(Err(e)),
            ) => r.1 matches RegistrationAction::Finish(Err(m)) && m@ == e@,
            (RegistrationState::AwaitingRegistration, RegistrationEvent::Registered(Ok(()))) => r.1
                == RegistrationAction::QueryRegistrationStatus && r.0
                == RegistrationState::AwaitingRecheck,
            (RegistrationState::AwaitingRegistration, RegistrationEvent::Registered(Err(e))) => r.1
                matches RegistrationAction::Finish(Err(m)) && m@ == e@,
            (
                RegistrationState::AwaitingRecheck,
                RegistrationEvent::RegistrationStatus(Ok(RegistrationStatus::Enabled)),
            ) => r.1 == RegistrationAction::Finish(Ok(())),
            (
                RegistrationState::AwaitingRecheck,
                RegistrationEvent::RegistrationStatus(Ok(_)),
            ) => r.1 matches RegistrationAction::Finish(Err(m)) && m@
                == "Karabiner input helper was registered; approve it in System Settings > General > Login Items"@,
            (RegistrationState::AwaitingRecheck, RegistrationEvent::RegistrationStatus(Err(e))) => r.1
                matches RegistrationAction::Finish(Err(m)) && m@ == e@,
            _ => false,
        },
{
    let done = RegistrationState::Done;
    match (state, event) {
        (RegistrationState::AwaitingHelperStatus, RegistrationEvent::HelperStatus(status)) => {
            match status {
                HelperStatus::Ready => (done, RegistrationAction::Finish(Ok(()))),
                HelperStatus::Rejected(error) => {
                    let mut m = "Karabiner input helper rejected Handy: ".to_owned();
                    m.append(error.as_str());
                    (done, RegistrationAction::Finish(Err(m)))
                },
                HelperStatus::NotRunning => (
                    RegistrationState::AwaitingRegistrationStatus,
                    RegistrationAction::QueryRegistrationStatus,
                ),
            }
        },
        (
            RegistrationState::AwaitingRegistrationStatus,
            RegistrationEvent::RegistrationStatus(answer),
        ) => match answer {
            Ok(RegistrationStatus::Enabled) => (done, RegistrationAction::Finish(Ok(()))),
            Ok(RegistrationStatus::RequiresApproval) => (
                done,
                RegistrationAction::Finish(
                    Err(
                        "Karabiner input helper requires approval in System Settings > General > Login Items".to_owned(),
                    ),
                ),
            ),
            Ok(RegistrationStatus::NotRegistered) => (
                RegistrationState::AwaitingRegistration,
                RegistrationAction::RegisterHelper,
            ),
            Ok(RegistrationStatus::NotFound) => (
                done,
                RegistrationAction::Finish(
                    Err(
                        "Karabiner input helper is unavailable; locally signed builds require `bun run install:karabiner-helper-local`".to_owned(),
                    ),
                ),
            ),
            Err(e) => (done, RegistrationAction::Finish(Err(e))),
        },
        (RegistrationState::AwaitingRegistration, RegistrationEvent::Registered(answer)) => {
            match answer {
                Ok(()) => (
                    RegistrationState::AwaitingRecheck,
                    RegistrationAction::QueryRegistrationStatus,
                ),
                Err(e) => (done, RegistrationAction::Finish(Err(e))),
            }
        },
        (RegistrationState::AwaitingRecheck, RegistrationEvent::RegistrationStatus(answer)) => {
            match answer {
                Ok(RegistrationStatus::Enabled) => (done, RegistrationAction::Finish(Ok(()))),
                Ok(_) => (
                    done,
                    RegistrationAction::Finish(
                        Err(
                            "Karabiner input helper was registered; approve it in System Settings > General > Login Items".to_owned(),
                        ),
                    ),
                ),
                Err(e) => (done, RegistrationAction::Finish(Err(e))),
            }
        },
        _ => {
            proof {
                assert(false);
            }
            (done, RegistrationAction::Finish(Ok(())))
        },
    }
}

/// The submit chord for the user's setting, when auto-submit is on.
pub open spec fn submit_key_for(auto_submit: bool, key: AutoSubmitKey) -> Option<SubmitKey> {
    if auto_submit {
        Some(
            match key {
                AutoSubmitKey::Enter => SubmitKey::Enter,
                AutoSubmitKey::CtrlEnter => SubmitKey::ControlEnter,
                AutoSubmitKey::CmdEnter => SubmitKey::CommandEnter,
            },
        )
    } else {
        None
    }
}

/// How the helper types: key-down time and gap between keys in milliseconds,
/// and the chord to press at the end, if any.
#[derive(Clone, Copy, Debug, PartialEq, Eq, Structural)]
pub struct TypingOptions {
    pub key_down_ms: u64,
    pub inter_key_ms: u64,
    pub submit: Option<SubmitKey>,
}

/// The submit chord for the user's setting, when auto-submit is on.
pub fn submit_key(auto_submit: bool, key: AutoSubmitKey) -> (r: Option<SubmitKey>)
    ensures
        r == submit_key_for(auto_submit, key),
{
    if auto_submit {
        Some(
            match key {
                AutoSubmitKey::Enter => SubmitKey::Enter,
                AutoSubmitKey::CtrlEnter => SubmitKey::ControlEnter,
                AutoSubmitKey::CmdEnter => SubmitKey::CommandEnter,
            },
        )
    } else {
        None
    }
}

/// The options text is typed with: one millisecond per key press and between
/// presses, and the submit chord of the setting when auto-submit is on.
pub fn typing_options(auto_submit: bool, key: AutoSubmitKey) -> (r: TypingOptions)
    ensures
        r.key_down_ms == 1,
        r.inter_key_ms == 1,
        r.submit == submit_key_for(auto_submit, key),
{
    TypingOptions { key_down_ms: 1, inter_key_ms: 1, submit: submit_key(auto_submit, key) }
}

/// With auto-submit off nothing is pressed after typing, whatever the key
/// setting; with it on, the setting's chord is pressed: Enter for Enter,
/// Control+Enter for Ctrl+Enter, Command+Enter for Cmd+Enter.
pub proof fn lemma_submit_only_when_auto_submit(auto_submit: bool, key: AutoSubmitKey)
    ensures
        !auto_submit ==> submit_key_for(auto_submit, key) is None,
        auto_submit && key == AutoSubmitKey::Enter ==> submit_key_for(auto_submit, key) == Some(
            SubmitKey::Enter,
        ),
        auto_submit && key == AutoSubmitKey::CtrlEnter ==> submit_key_for(auto_submit, key)
            == Some(SubmitKey::ControlEnter),
        auto_submit && key == AutoSubmitKey::CmdEnter ==> submit_key_for(auto_submit, key)
            == Some(SubmitKey::CommandEnter),
{
}

} // verus!
