//! The part of the application state that the library's decisions read and change.
use crate::hierarchy::ScopeExpandType;
use crate::time::{TimeFormat, TimeStringFormatting};
use crate::batch_commands::BatchQueue;
use vstd::prelude::*;

verus! {

/// The messages that the library's own logic makes or inspects.
#[derive(Debug)]
pub enum Message {
    /// Quit the application.
    Exit,
    /// A command file was downloaded from the given URL.
    CommandFileDownloaded(String, Vec<u8>),
    /// Something failed; the text says what.
    Error(String),
}

/// What a background operation is doing.
#[derive(Debug)]
pub enum LoadProgressStatus {
    /// A file is being downloaded from the given URL.
    Downloading(String),
}

/// A background operation that is under way.
#[derive(Debug)]
pub struct LoadProgress {
    pub status: LoadProgressStatus,
}

impl LoadProgress {
    /// An operation in the given state.
    pub fn new(status: LoadProgressStatus) -> (res: Self)
        ensures
            res.status == status,
    {
        LoadProgress { status }
    }
}

/// The user's settings that the time formatting reads.
#[derive(Debug)]
pub struct UserState {
    /// The time format of the configuration.
    pub default_time_format: TimeFormat,
    /// A number format chosen by the user, which overrides that of the configuration.
    pub time_string_format: Option<TimeStringFormatting>,
}

/// The application state.
#[derive(Debug)]
pub struct SystemState {
    /// Messages of command files that are waiting to be applied, in order, and whether all
    /// of them have been applied and their effects have finished.
    pub batch_messages: BatchQueue,
    /// The background operation under way, if any.
    pub progress_tracker: Option<LoadProgress>,
    /// The user's settings.
    pub user: UserState,
    /// A scope of the hierarchy view that is still to be opened, or an expand/collapse request.
    pub scope_ref_to_expand: Option<ScopeExpandType>,
}

impl SystemState {
    /// A state with nothing queued, nothing under way and nothing to expand.
    pub fn new(user: UserState) -> (res: Self)
        ensures
            res.batch_messages.queued().len() == 0,
            res.batch_messages.done(),
            res.progress_tracker is None,
            res.user == user,
            res.scope_ref_to_expand is None,
    {
        SystemState {
            batch_messages: BatchQueue::new(),
            progress_tracker: None,
            user,
            scope_ref_to_expand: None,
        }
    }
}

} // verus!
