//! Console output: the one place where the library writes to the terminal.

use vstd::prelude::*;
use std::io::Write;
use crate::ports::OutputPort;

verus! {

/// Writes messages to standard output, errors to standard error.
pub struct ConsoleOutput;

/// Relies on std::io::stdout: writes one line to standard output.
#[verifier::external_body]
fn print_out_line(message: &str) {
    let _ = writeln!(std::io::stdout(), "{}", message);
}

/// Relies on std::io::stderr: writes one line to standard error.
#[verifier::external_body]
fn print_err_line(message: &str) {
    let _ = writeln!(std::io::stderr(), "Error: {}", message);
}

impl OutputPort for ConsoleOutput {
    fn success(&self, message: &str) {
        print_out_line(message);
    }

    fn error(&self, message: &str) {
        print_err_line(message);
    }

    fn info(&self, message: &str) {
        print_out_line(message);
    }
}

} // verus!
