use vstd::prelude::*;

verus! {

/// Whether the startup phase may end and the main window be shown.
///
/// A failed audio engine spawn releases the startup screen at once; otherwise
/// the file loader must be idle, no document may be waiting for activation,
/// and the audio engine must be ready.
pub fn startup_ready(audio_ready: bool, audio_failed: bool, file_loading: bool, pending_doc: bool) -> (ready: bool)
    ensures
        ready == (audio_failed || (!file_loading && !pending_doc && audio_ready)),
{
    if audio_failed {
        return true;
    }
    !file_loading && !pending_doc && audio_ready
}

} // verus!
