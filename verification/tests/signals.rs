//! Stop signals and their names.

use processguard::host::TextFile;
use processguard::report::Failure;
use processguard::signal::StopSignal;
use processguard::stop::configured_stop_signal;

#[test]
fn kill_is_a_supported_immediate_stop_signal() {
    assert_eq!(StopSignal::parse("KILL"), Ok(StopSignal::Kill));
    assert_eq!(StopSignal::parse("sigkill"), Ok(StopSignal::Kill));
    assert!(StopSignal::Kill.is_forceful());
}

#[test]
fn every_stop_signal_has_a_name() {
    assert_eq!(StopSignal::parse("TERM"), Ok(StopSignal::Terminate));
    assert_eq!(StopSignal::parse("INT"), Ok(StopSignal::Interrupt));
    assert_eq!(StopSignal::parse("HUP"), Ok(StopSignal::Hangup));
    assert_eq!(StopSignal::parse("QUIT"), Ok(StopSignal::Quit));
}

#[test]
fn case_prefix_and_space_do_not_matter() {
    assert_eq!(StopSignal::parse(" SigTerm\n"), Ok(StopSignal::Terminate));
    assert_eq!(StopSignal::parse("\tsigsigint "), Ok(StopSignal::Interrupt));
    assert_eq!(StopSignal::parse("\u{a0}hup\u{2003}"), Ok(StopSignal::Hangup));
}

#[test]
fn other_names_are_refused_in_upper_case() {
    assert_eq!(
        StopSignal::parse("sigusr1"),
        Err("unsupported stop signal USR1".to_string())
    );
    assert_eq!(StopSignal::parse("  "), Err("unsupported stop signal ".to_string()));
    assert_eq!(
        StopSignal::parse("TERMSIG"),
        Err("unsupported stop signal TERMSIG".to_string())
    );
}

#[test]
fn only_kill_is_forceful() {
    assert!(!StopSignal::Terminate.is_forceful());
    assert!(!StopSignal::Interrupt.is_forceful());
    assert!(!StopSignal::Hangup.is_forceful());
    assert!(!StopSignal::Quit.is_forceful());
}

#[test]
fn numbers_are_those_of_the_system() {
    assert_eq!(StopSignal::Terminate.as_raw(), 15);
    assert_eq!(StopSignal::Interrupt.as_raw(), 2);
    assert_eq!(StopSignal::Hangup.as_raw(), 1);
    assert_eq!(StopSignal::Quit.as_raw(), 3);
    assert_eq!(StopSignal::Kill.as_raw(), 9);
}

#[test]
fn a_missing_signal_file_means_term() {
    assert_eq!(configured_stop_signal(TextFile::Missing), Ok(StopSignal::Terminate));
    assert_eq!(
        configured_stop_signal(TextFile::Text("quit\n".to_string())),
        Ok(StopSignal::Quit)
    );
    assert_eq!(
        configured_stop_signal(TextFile::Text("nope".to_string())),
        Err(Failure::BadStopSignal { text: "nope".to_string() })
    );
    assert!(matches!(
        configured_stop_signal(TextFile::Unreadable("denied".to_string())),
        Err(Failure::CannotRead { .. })
    ));
}
