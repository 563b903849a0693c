//! The password of a store: the one written in the configuration, or what a
//! command of the user's prints.
//!
//! The library does not run the command. It says which command has to run, and
//! makes the password of what the run gave.

use crate::config::{ImapStoreConfig, StoreView};
use crate::text::{trim, trimmed};
use vstd::prelude::*;
use vstd::utf8::{decode_utf8, valid_utf8};

verus! {

/// What became of the password command.
#[derive(Debug, PartialEq, Eq)]
pub enum CommandOutcome {
    /// The command was not run.
    NotRun,
    /// The command could not be started.
    NotStarted,
    /// The command ran to its end; `success` tells whether its exit status
    /// was zero, and `output` is what it wrote to its standard output.
    Exited { success: bool, output: Vec<u8> },
}

/// Why a store has no password.
#[derive(Clone, Copy, Debug, PartialEq, Eq, Structural)]
pub enum ResolutionError {
    /// The password comes from a command, and the command was not run.
    NotRun,
    /// The command could not be started.
    NotStarted,
    /// The command ended with another exit status than zero.
    Unsuccessful,
    /// What the command printed is not UTF-8.
    NotText,
}

/// The password that a command's run gives: what it printed, without the white
/// space around it.
pub open spec fn command_password(outcome: CommandOutcome) -> Result<Seq<char>, ResolutionError> {
    match outcome {
        CommandOutcome::NotRun => Err(ResolutionError::NotRun),
        CommandOutcome::NotStarted => Err(ResolutionError::NotStarted),
        CommandOutcome::Exited { success, output } => if !success {
            Err(ResolutionError::Unsuccessful)
        } else if !valid_utf8(output@) {
            Err(ResolutionError::NotText)
        } else {
            Ok(trim(decode_utf8(output@)))
        },
    }
}

impl StoreView {
    /// The command that has to run before the password is known: the
    /// password command of a store without a written password.
    pub open spec fn command_to_run(self) -> Option<Seq<char>> {
        match self.pass {
            Some(_) => None,
            None => self.pass_command,
        }
    }

    /// The password of the store. A written password wins. Without one, the
    /// password is what the password command gave. A store with neither has
    /// the empty password.
    pub open spec fn password(self, outcome: CommandOutcome) -> Result<Seq<char>, ResolutionError> {
        match self.pass {
            Some(pass) => Ok(pass),
            None => match self.pass_command {
                Some(_) => command_password(outcome),
                None => Ok(Seq::empty()),
            },
        }
    }
}

/// The view of a password or of the reason why there is none.
pub open spec fn password_view(resolved: Result<String, ResolutionError>) -> Result<
    Seq<char>,
    ResolutionError,
> {
    match resolved {
        Ok(password) => Ok(password@),
        Err(error) => Err(error),
    }
}

/// The view of a command that may be absent.
pub open spec fn command_view(command: Option<&str>) -> Option<Seq<char>> {
    match command {
        Some(c) => Some(c@),
        None => None,
    }
}

/// `String::from_utf8` of std: the text that the bytes encode in UTF-8, and
/// nothing where they encode none.
#[verifier::external_body]
fn text_of_bytes(bytes: Vec<u8>) -> (text: Option<String>)
    ensures
        text is Some <==> valid_utf8(bytes@),
        text matches Some(t) ==> t@ == decode_utf8(bytes@),
{
    match String::from_utf8(bytes) {
        Ok(text) => Some(text),
        Err(_) => None,
    }
}

/// Makes the password of what a run of the password command gave.
pub fn password_from(outcome: CommandOutcome) -> (resolved: Result<String, ResolutionError>)
    ensures
        password_view(resolved) == command_password(outcome),
{
    match outcome {
        CommandOutcome::NotRun => Err(ResolutionError::NotRun),
        CommandOutcome::NotStarted => Err(ResolutionError::NotStarted),
        CommandOutcome::Exited { success, output } => {
            if !success {
                return Err(ResolutionError::Unsuccessful);
            }
            match text_of_bytes(output) {
                None => Err(ResolutionError::NotText),
                Some(text) => Ok(trimmed(text.as_str())),
            }
        },
    }
}

impl ImapStoreConfig {
    /// The command that the caller has to run through a shell before it asks
    /// for the password, if there is one.
    pub fn password_command(&self) -> (command: Option<&str>)
        ensures
            command_view(command) == self@.command_to_run(),
    {
        match &self.pass {
            Some(_) => None,
            None => match &self.pass_command {
                Some(command) => Some(command.as_str()),
                None => None,
            },
        }
    }

    /// The password of the store, given what became of the command that
    /// [`password_command`](Self::password_command) named. Where no command
    /// had to run the outcome does not count.
    pub fn password(&self, outcome: CommandOutcome) -> (resolved: Result<String, ResolutionError>)
        ensures
            password_view(resolved) == self@.password(outcome),
    {
        match &self.pass {
            Some(pass) => Ok(pass.clone()),
            None => match &self.pass_command {
                Some(_) => password_from(outcome),
                None => Ok(String::new()),
            },
        }
    }
}

/// A written password wins over a password command: the store's password is
/// the written one whatever became of the command, and no command has to run.
pub proof fn lemma_written_password_wins(store: StoreView, outcome: CommandOutcome)
    requires
        store.pass is Some,
    ensures
        store.password(outcome) == Ok::<Seq<char>, ResolutionError>(store.pass->0),
        store.command_to_run() is None,
{
}

/// A store whose password comes from a command has one exactly when the
/// command ran with success and printed text.
pub proof fn lemma_command_password(store: StoreView, outcome: CommandOutcome)
    requires
        store.pass is None,
        store.pass_command is Some,
    ensures
        store.command_to_run() == store.pass_command,
        store.password(outcome) is Ok <==> (outcome matches CommandOutcome::Exited {
            success,
            output,
        } && success && valid_utf8(output@)),
{
}

} // verus!
