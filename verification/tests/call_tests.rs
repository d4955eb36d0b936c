use rowshell::commands::call::{Event, Phase};

#[test]
fn invocation_runs_to_completion() {
    let mut phase = Phase::Uncompiled;
    for event in [Event::CompileSucceeded, Event::Started, Event::InputExhausted] {
        phase = phase.advance(event).unwrap();
    }
    assert_eq!(phase, Phase::Completed);
    assert_eq!(phase.is_final(), true);
    assert_eq!(phase.advance(Event::Started), None);
}

#[test]
fn refused_compilation_never_runs() {
    let phase = Phase::Uncompiled.advance(Event::CompileFailed).unwrap();
    assert_eq!(phase, Phase::Uncompiled);
    assert_eq!(phase.advance(Event::Started), None);
    assert_eq!(phase.is_final(), false);
}

#[test]
fn lost_reader_completes_and_error_aborts() {
    assert_eq!(Phase::Running.advance(Event::OutputDisconnected), Some(Phase::Completed));
    assert_eq!(Phase::Running.advance(Event::StoppedEarly), Some(Phase::Completed));
    assert_eq!(Phase::Compiled.advance(Event::StoppedEarly), None);
    assert_eq!(Phase::Running.advance(Event::InternalError), Some(Phase::Aborted));
    assert_eq!(Phase::Aborted.advance(Event::InputExhausted), None);
    assert_eq!(Phase::Aborted.is_final(), true);
    assert_eq!(Phase::Compiled.advance(Event::InputExhausted), None);
}
