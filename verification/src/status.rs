//! The shared status sink: parse-time and run-time faults are recorded here
//! as a sticky flag plus a diagnostic message.  The flag is the modelled
//! part; the message text is informal diagnostics only.

use vstd::prelude::*;

verus! {

/// The error sink.  Its abstract value is the boolean flag alone.
pub struct Status {
    failed: bool,
    message: String,
}

impl View for Status {
    type V = bool;

    closed spec fn view(&self) -> bool {
        self.failed
    }
}

impl Status {
    /// A fresh sink: no fault recorded.
    pub fn new() -> (r: Status)
        ensures
            r@ == false,
    {
        Status { failed: false, message: String::new() }
    }

    /// Record a fault.  The flag is sticky: once set it stays set.
    pub fn throw(&mut self, message: &str)
        ensures
            final(self)@ == true,
    {
        self.failed = true;
        self.message = message.to_owned();
    }

    /// Whether any fault has been recorded so far.
    pub fn get_status(&self) -> (r: bool)
        ensures
            r == self@,
    {
        self.failed
    }

    /// The message of the most recent fault; empty when none was recorded.
    pub fn get_message(&self) -> (r: &String) {
        &self.message
    }

    /// Clear the sink.
    pub fn reset_status(&mut self)
        ensures
            final(self)@ == false,
    {
        self.failed = false;
        self.message = String::new();
    }
}

} // verus!
