//! The flow of loading or saving through a file dialog: a request opens the dialog; a chosen
//! file starts the transfer (reading, or writing what the world holds); a closed dialog is
//! reported; a finished transfer is handed over. This module decides, frame by frame, which of
//! these steps to take; the dialog and the transfer themselves run elsewhere.

use vstd::prelude::*;

verus! {

/// Where an open file dialog stands this frame.
#[derive(Clone, Copy, Debug, PartialEq, Eq, Structural)]
pub enum DialogState {
    /// Still open.
    Open,
    /// Closed with a file chosen.
    Chosen,
    /// Closed without a file.
    Cancelled,
}

/// What one frame of the flow sees.
#[derive(Clone, Copy, Debug, PartialEq, Eq, Structural)]
pub struct FileFlowInput {
    /// Whether no dialog is running.
    pub dialog_idle: bool,
    /// How many load (or save) requests are waiting.
    pub requests: usize,
    /// The running dialog's state, when one is running.
    pub dialog: DialogState,
    /// Whether the transfer started earlier has finished.
    pub transfer_finished: bool,
}

/// What one frame of the flow does.
#[derive(Clone, Copy, Debug, PartialEq, Eq, Structural)]
pub struct FileFlowActions {
    /// Consume the waiting requests.
    pub consume_requests: bool,
    /// Open a dialog (named after the project).
    pub open_dialog: bool,
    /// Report that the dialog was closed without a file.
    pub report_cancelled: bool,
    /// Start reading (or writing) the chosen file.
    pub start_transfer: bool,
    /// Hand the finished transfer's result over.
    pub finish_transfer: bool,
}

/// One frame of the flow: with no dialog running, the waiting requests are consumed and any of
/// them opens a dialog; with one running, a chosen file starts the transfer and a cancelled
/// dialog is reported, which ends the frame; otherwise a finished transfer is handed over.
pub fn file_flow_step(input: FileFlowInput) -> (a: FileFlowActions)
    ensures
        a.consume_requests == input.dialog_idle,
        a.open_dialog == (input.dialog_idle && input.requests > 0),
        a.report_cancelled == (!input.dialog_idle && input.dialog == DialogState::Cancelled),
        a.start_transfer == (!input.dialog_idle && input.dialog == DialogState::Chosen),
        a.finish_transfer == (input.transfer_finished && !a.report_cancelled),
{
    let mut a = FileFlowActions {
        consume_requests: false,
        open_dialog: false,
        report_cancelled: false,
        start_transfer: false,
        finish_transfer: false,
    };
    if input.dialog_idle {
        a.consume_requests = true;
        if input.requests > 0 {
            a.open_dialog = true;
        }
    } else {
        match input.dialog {
            DialogState::Open => {},
            DialogState::Chosen => {
                a.start_transfer = true;
            },
            DialogState::Cancelled => {
                a.report_cancelled = true;
                return a;
            },
        }
    }
    if input.transfer_finished {
        a.finish_transfer = true;
    }
    a
}

} // verus!
