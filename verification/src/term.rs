//! Decision logic of the raw terminal mode controller: how the cached echo
//! and canonical-mode flags are derived from an OS attribute snapshot, how
//! a local-mode word is rewritten for each toggle, and how the result of a
//! timed single-byte read is classified. The OS calls themselves live with
//! the caller that owns the real terminal.

use vstd::prelude::*;

verus! {

/// Failures of the OS terminal interface, one per failing call, each with a
/// fixed description. They are propagated, never retried.
#[derive(Clone, Copy, PartialEq, Eq, Structural, Debug)]
pub enum TermError {
    /// The initial attribute query failed.
    InitAttr,
    /// An attribute query failed.
    GetAttr,
    /// An attribute update failed.
    SetAttr,
    /// Reading the ready byte from standard input failed.
    ReadByte,
}

impl TermError {
    /// The fixed description of each failure.
    pub fn message(&self) -> (r: &'static str)
        ensures
            *self == TermError::InitAttr ==> r@ == "failed to initialize termios attributes"@,
            *self == TermError::GetAttr ==> r@ == "failed to get termios settings"@,
            *self == TermError::SetAttr ==> r@ == "failed to set termios settings"@,
            *self == TermError::ReadByte ==> r@ == "failed to read byte from stdin"@,
    {
        match self {
            TermError::InitAttr => "failed to initialize termios attributes",
            TermError::GetAttr => "failed to get termios settings",
            TermError::SetAttr => "failed to set termios settings",
            TermError::ReadByte => "failed to read byte from stdin",
        }
    }
}

/// Whether a local-mode word has the masked flag set.
pub open spec fn flag_set(lflag: u64, mask: u64) -> bool {
    lflag & mask != 0
}

/// A local-mode word with the masked flag switched on or off; every other
/// bit is left alone.
pub open spec fn spec_apply_flag(lflag: u64, mask: u64, on: bool) -> u64 {
    if on {
        lflag | mask
    } else {
        lflag & !mask
    }
}

/// Computes the local-mode word for one attribute update: switching echo or
/// canonical mode on or off while preserving the other bits.
pub fn apply_flag(lflag: u64, mask: u64, on: bool) -> (r: u64)
    ensures
        r == spec_apply_flag(lflag, mask, on),
{
    if on {
        lflag | mask
    } else {
        lflag & !mask
    }
}

/// The cached state of the terminal controller: echo-enabled and
/// canonical-mode-enabled, mirrored from the most recent attribute snapshot.
pub struct Term {
    echo: bool,
    canon: bool,
}

impl Term {
    pub closed spec fn spec_echo(self) -> bool {
        self.echo
    }

    pub closed spec fn spec_canon(self) -> bool {
        self.canon
    }

    /// Derives the cached flags from a snapshot's local-mode word, given
    /// the platform's echo and canonical-mode masks.
    pub fn from_lflag(lflag: u64, echo_mask: u64, canon_mask: u64) -> (t: Term)
        ensures
            t.spec_echo() == flag_set(lflag, echo_mask),
            t.spec_canon() == flag_set(lflag, canon_mask),
    {
        Term { echo: lflag & echo_mask != 0, canon: lflag & canon_mask != 0 }
    }

    /// Re-derives both cached flags after a saved snapshot is reapplied to
    /// the terminal.
    pub fn refresh_from_lflag(&mut self, lflag: u64, echo_mask: u64, canon_mask: u64)
        ensures
            final(self).spec_echo() == flag_set(lflag, echo_mask),
            final(self).spec_canon() == flag_set(lflag, canon_mask),
    {
        self.echo = lflag & echo_mask != 0;
        self.canon = lflag & canon_mask != 0;
    }

    pub fn echo(&self) -> (r: bool)
        ensures
            r == self.spec_echo(),
    {
        self.echo
    }

    pub fn canon(&self) -> (r: bool)
        ensures
            r == self.spec_canon(),
    {
        self.canon
    }

    /// Records that an echo toggle was applied to the terminal.
    pub fn record_echo(&mut self, on: bool)
        ensures
            final(self).spec_echo() == on,
            final(self).spec_canon() == old(self).spec_canon(),
    {
        self.echo = on;
    }

    /// Records that a canonical-mode toggle was applied to the terminal.
    pub fn record_canon(&mut self, on: bool)
        ensures
            final(self).spec_canon() == on,
            final(self).spec_echo() == old(self).spec_echo(),
    {
        self.canon = on;
    }
}

/// Classifies what the readiness poll and the single-byte read returned:
/// no readiness within the timeout is "no character available", never an
/// error; a ready descriptor followed by a one-byte read yields that byte;
/// a ready descriptor with a failed or short read is a read error.
pub fn getch_outcome(has_input: i32, nread: i64, byte: u8) -> (r: Result<Option<char>, TermError>)
    ensures
        has_input <= 0 ==> r == Ok::<Option<char>, TermError>(None),
        has_input > 0 && nread == 1 ==> r == Ok::<Option<char>, TermError>(Some(byte as char)),
        has_input > 0 && nread != 1 ==> r == Err::<Option<char>, TermError>(TermError::ReadByte),
{
    if has_input > 0 {
        if nread == 1 {
            Ok(Some(byte as char))
        } else {
            Err(TermError::ReadByte)
        }
    } else {
        Ok(None)
    }
}

/// Enabling raw input (echo off, then canonical mode off) and afterwards
/// disabling it (echo on, then canonical mode on) restores the previous
/// local-mode word, and with it the derived echo and canonical flags,
/// provided both flags were fully set beforehand. A terminal that starts
/// with either flag clear is left with that flag set instead.
pub proof fn lemma_raw_input_round_trip(lflag: u64, echo_mask: u64, canon_mask: u64)
    requires
        lflag & echo_mask == echo_mask,
        lflag & canon_mask == canon_mask,
    ensures
        spec_apply_flag(
            spec_apply_flag(
                spec_apply_flag(spec_apply_flag(lflag, echo_mask, false), canon_mask, false),
                echo_mask,
                true,
            ),
            canon_mask,
            true,
        ) == lflag,
        flag_set(
            spec_apply_flag(
                spec_apply_flag(
                    spec_apply_flag(spec_apply_flag(lflag, echo_mask, false), canon_mask, false),
                    echo_mask,
                    true,
                ),
                canon_mask,
                true,
            ),
            echo_mask,
        ) == flag_set(lflag, echo_mask),
        flag_set(
            spec_apply_flag(
                spec_apply_flag(
                    spec_apply_flag(spec_apply_flag(lflag, echo_mask, false), canon_mask, false),
                    echo_mask,
                    true,
                ),
                canon_mask,
                true,
            ),
            canon_mask,
        ) == flag_set(lflag, canon_mask),
{
    assert(((((lflag & !echo_mask) & !canon_mask) | echo_mask) | canon_mask) == lflag)
        by (bit_vector)
        requires
            lflag & echo_mask == echo_mask,
            lflag & canon_mask == canon_mask,
    ;
}

} // verus!
