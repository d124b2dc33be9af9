//! QSO audio memo: whether a recording and a playback are running, and
//! which steps the recorder takes. Starting and stopping the sound device
//! is done by the caller's functions, which the recorder calls when its
//! state says so.

use vstd::prelude::*;

verus! {

/// Recorder and player state.
pub struct AudioRecorder {
    pub recording: bool,
    pub playing: bool,
}

/// The refusal of a stop while nothing records.
pub open spec fn not_recording_message() -> Seq<char> {
    "Nagrywanie nie było aktywne"@
}

impl AudioRecorder {
    /// Neither recording nor playing.
    pub fn new() -> (r: Self)
        ensures
            !r.recording,
            !r.playing,
    {
        AudioRecorder { recording: false, playing: false }
    }

    /// Whether a recording runs.
    pub fn is_recording(&self) -> (b: bool)
        ensures
            b == self.recording,
    {
        self.recording
    }

    /// Whether a playback runs.
    pub fn is_playing(&self) -> (b: bool)
        ensures
            b == self.playing,
    {
        self.playing
    }

    /// Starts recording: while one runs already this succeeds and does
    /// nothing; otherwise `start_capture` starts the device, and the
    /// recorder records where it succeeded.
    pub fn start_recording<F: FnOnce() -> Result<(), String>>(&mut self, start_capture: F) -> (res: Result<(), String>)
        requires
            !old(self).recording ==> start_capture.requires(()),
        ensures
            final(self).playing == old(self).playing,
            old(self).recording ==> res is Ok && final(self).recording,
            !old(self).recording ==> start_capture.ensures((), res) && final(self).recording == res is Ok,
    {
        if self.recording {
            return Ok(());
        }
        let res = start_capture();
        if res.is_ok() {
            self.recording = true;
        }
        res
    }

    /// Stops the recording and saves it: refused where nothing records;
    /// otherwise `save` stops the device and stores the file, and the
    /// recorder stops where it succeeded.
    pub fn stop_and_save<P, F: FnOnce() -> Result<P, String>>(&mut self, save: F) -> (res: Result<P, String>)
        requires
            old(self).recording ==> save.requires(()),
        ensures
            final(self).playing == old(self).playing,
            !old(self).recording ==> !final(self).recording && (res matches Err(msg) && msg@
                == not_recording_message()),
            old(self).recording ==> save.ensures((), res) && final(self).recording == res is Err,
    {
        if !self.recording {
            return Err(String::from_str("Nagrywanie nie było aktywne"));
        }
        let res = save();
        if res.is_ok() {
            self.recording = false;
        }
        res
    }

    /// Plays a recording: any playback stops first, then `play` starts the
    /// new one, and the player plays where it succeeded.
    pub fn play_audio<F: FnOnce() -> Result<(), String>>(&mut self, play: F) -> (res: Result<(), String>)
        requires
            play.requires(()),
        ensures
            final(self).recording == old(self).recording,
            play.ensures((), res),
            final(self).playing == res is Ok,
    {
        self.playing = false;
        let res = play();
        if res.is_ok() {
            self.playing = true;
        }
        res
    }

    /// Stops the playback: `stop` halts the device, and nothing plays.
    pub fn stop_audio<F: FnOnce()>(&mut self, stop: F) -> (res: Result<(), String>)
        requires
            stop.requires(()),
        ensures
            final(self).recording == old(self).recording,
            stop.ensures((), ()),
            !final(self).playing,
            res is Ok,
    {
        stop();
        self.playing = false;
        Ok(())
    }
}

} // verus!
