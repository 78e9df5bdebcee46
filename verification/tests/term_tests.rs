use nox_lib::term::{apply_flag, getch_outcome, Term, TermError};

const ECHO_BIT: u64 = 0x8;
const ICANON_BIT: u64 = 0x2;

#[test]
fn flags_derived_from_snapshot() {
    let t = Term::from_lflag(ECHO_BIT | ICANON_BIT, ECHO_BIT, ICANON_BIT);
    assert!(t.echo());
    assert!(t.canon());
    let t = Term::from_lflag(ECHO_BIT, ECHO_BIT, ICANON_BIT);
    assert!(t.echo());
    assert!(!t.canon());
    let t = Term::from_lflag(0, ECHO_BIT, ICANON_BIT);
    assert!(!t.echo());
    assert!(!t.canon());
}

#[test]
fn refresh_rederives_flags() {
    let mut t = Term::from_lflag(0, ECHO_BIT, ICANON_BIT);
    t.refresh_from_lflag(ECHO_BIT | ICANON_BIT, ECHO_BIT, ICANON_BIT);
    assert!(t.echo());
    assert!(t.canon());
}

#[test]
fn record_updates_one_flag_only() {
    let mut t = Term::from_lflag(ECHO_BIT | ICANON_BIT, ECHO_BIT, ICANON_BIT);
    t.record_echo(false);
    assert!(!t.echo());
    assert!(t.canon());
    t.record_canon(false);
    assert!(!t.canon());
    assert!(!t.echo());
}

#[test]
fn apply_flag_sets_and_clears_only_the_mask() {
    let lflag: u64 = 0b1010_1010;
    let cleared = apply_flag(lflag, ECHO_BIT, false);
    assert_eq!(cleared, 0b1010_0010);
    let set = apply_flag(cleared, ECHO_BIT, true);
    assert_eq!(set, lflag);
}

#[test]
fn raw_input_round_trip_restores_flags() {
    // enable raw input: echo off, then canonical mode off
    let start: u64 = ECHO_BIT | ICANON_BIT | 0x40;
    let raw = apply_flag(apply_flag(start, ECHO_BIT, false), ICANON_BIT, false);
    assert_eq!(raw & ECHO_BIT, 0);
    assert_eq!(raw & ICANON_BIT, 0);
    // disable raw input: echo on, then canonical mode on
    let cooked = apply_flag(apply_flag(raw, ECHO_BIT, true), ICANON_BIT, true);
    assert_eq!(cooked, start);
}

#[test]
fn getch_no_readiness_is_no_character() {
    assert_eq!(getch_outcome(0, 0, 0), Ok(None));
    assert_eq!(getch_outcome(-1, 0, 0), Ok(None));
}

#[test]
fn getch_ready_byte_is_returned() {
    assert_eq!(getch_outcome(1, 1, b'w'), Ok(Some('w')));
    assert_eq!(getch_outcome(3, 1, 0x1b), Ok(Some('\x1b')));
}

#[test]
fn getch_ready_but_failed_read_is_error() {
    assert_eq!(getch_outcome(1, 0, 0), Err(TermError::ReadByte));
    assert_eq!(getch_outcome(1, -1, 0), Err(TermError::ReadByte));
}

#[test]
fn error_messages_are_fixed() {
    assert_eq!(
        TermError::InitAttr.message(),
        "failed to initialize termios attributes"
    );
    assert_eq!(TermError::GetAttr.message(), "failed to get termios settings");
    assert_eq!(TermError::SetAttr.message(), "failed to set termios settings");
    assert_eq!(TermError::ReadByte.message(), "failed to read byte from stdin");
}
