//! What is left to be cleaned up when the player ends.
use vstd::prelude::*;

verus! {

/// Keeps what the transcribing task needs to be stopped: its token and its notice.
#[derive(Debug)]
pub struct AsyncCleaner<T, N> {
    transcribe_task_cancel_token: Option<T>,
    transcribe_task_notify: Option<N>,
}

impl<T, N> AsyncCleaner<T, N> {
    /// The token, if there is one.
    pub closed spec fn token(&self) -> Option<T> {
        self.transcribe_task_cancel_token
    }

    /// The notice, if there is one.
    pub closed spec fn notice(&self) -> Option<N> {
        self.transcribe_task_notify
    }

    /// Makes a cleaner that has nothing to clean up.
    pub fn new() -> (cleaner: AsyncCleaner<T, N>)
        ensures
            cleaner.token() is None,
            cleaner.notice() is None,
    {
        AsyncCleaner { transcribe_task_cancel_token: None, transcribe_task_notify: None }
    }

    /// Takes charge of the transcribing task.
    pub fn add_transcriber_resources(
        &mut self,
        transcribe_task_cancel_token: T,
        transcribe_task_notify: N,
    )
        ensures
            final(self).token() == Some(transcribe_task_cancel_token),
            final(self).notice() == Some(transcribe_task_notify),
    {
        self.transcribe_task_cancel_token = Some(transcribe_task_cancel_token);
        self.transcribe_task_notify = Some(transcribe_task_notify);
    }

    /// Tells what is to be done now: the token that is to be cancelled, and then the notice that is
    /// to be given.
    pub fn start_clean(&self) -> (work: (Option<&T>, Option<&N>))
        ensures
            work.0 == (match self.token() {
                Some(token) => Some(&token),
                None => None,
            }),
            work.1 == (match self.notice() {
                Some(notice) => Some(&notice),
                None => None,
            }),
    {
        (self.transcribe_task_cancel_token.as_ref(), self.transcribe_task_notify.as_ref())
    }
}

} // verus!
