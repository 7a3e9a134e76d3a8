use slonik_core::debug_logger::DebugLogger;
use slonik_core::error::CoreError;
use slonik_core::event::{
    AppAction, AppEvent, EventDispatcher, OutputModeChange, PgRequest, RecordingListener,
    SideMessage,
};

fn sample_events() -> Vec<AppEvent> {
    vec![
        AppEvent::Started,
        AppEvent::AppAction(AppAction::FetchRows),
        AppEvent::PgRequest(PgRequest { id: 0, text: "select 1".to_string() }),
        AppEvent::OutputModeChanged(OutputModeChange::Csv),
        AppEvent::PgMessage(SideMessage::Notice("hello".to_string())),
    ]
}

#[test]
fn all_listeners_observe_all_events_in_order() {
    let mut bus: EventDispatcher<RecordingListener> = EventDispatcher::create();
    bus.register_listener(RecordingListener::new());
    bus.register_listener(RecordingListener::new());
    bus.register_listener(RecordingListener::new());

    for ev in sample_events() {
        bus.emit(ev);
    }
    bus.listen();

    assert_eq!(bus.listener_count(), 3);
    for i in 0..3 {
        assert_eq!(bus.listener_at(i).events, sample_events());
    }
}

#[test]
fn late_listener_sees_only_later_events() {
    let mut bus: EventDispatcher<RecordingListener> = EventDispatcher::create();
    bus.register_listener(RecordingListener::new());

    bus.emit(AppEvent::Started);
    bus.listen();

    bus.register_listener(RecordingListener::new());
    bus.emit(AppEvent::AppAction(AppAction::FetchRows));
    bus.listen();

    assert_eq!(
        bus.listener_at(0).events,
        vec![AppEvent::Started, AppEvent::AppAction(AppAction::FetchRows)]
    );
    assert_eq!(
        bus.listener_at(1).events,
        vec![AppEvent::AppAction(AppAction::FetchRows)]
    );
}

#[test]
fn emit_is_queued_until_dispatch() {
    let mut bus: EventDispatcher<RecordingListener> = EventDispatcher::create();
    bus.register_listener(RecordingListener::new());

    bus.emit(AppEvent::Started);
    assert_eq!(bus.listener_at(0).events, Vec::new());

    bus.listen();
    assert_eq!(bus.listener_at(0).events, vec![AppEvent::Started]);
}

#[test]
fn emit_after_close_is_dispatch_error() {
    let mut bus: EventDispatcher<RecordingListener> = EventDispatcher::create();
    bus.register_listener(RecordingListener::new());

    assert_eq!(bus.try_emit(AppEvent::Started), Ok(()));
    bus.close();
    assert_eq!(
        bus.try_emit(AppEvent::AppAction(AppAction::FetchRows)),
        Err(CoreError::Dispatch)
    );

    bus.listen();
    assert_eq!(bus.listener_at(0).events, vec![AppEvent::Started]);
}

#[test]
fn debug_logger_counts_error_events() {
    let mut bus: EventDispatcher<DebugLogger> = EventDispatcher::create();
    bus.register_listener(DebugLogger::new());

    bus.emit(AppEvent::Started);
    bus.emit(AppEvent::Error(CoreError::Query("boom".to_string())));
    bus.emit(AppEvent::OutputModeChanged(OutputModeChange::Tabular));
    bus.emit(AppEvent::Error(CoreError::Protocol));
    bus.listen();

    assert_eq!(bus.listener_at(0).error_count(), 2);
}
