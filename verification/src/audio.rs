//! Audio playback state and how audio events change it.
//!
//! Volumes are `f32` values in the engine; here they are carried by their
//! bit patterns (`f32::to_bits`).

use vstd::prelude::*;

verus! {

/// A request to the audio system.
#[derive(Clone, Debug)]
pub enum AudioEvent {
    /// Play a sound effect at a volume (bit pattern of an `f32`).
    PlaySound { name: String, volume_bits: u32 },
    /// Play background music.
    PlayMusic { name: String, looping: bool },
    /// Stop the background music.
    StopMusic,
    /// Pause all audio.
    PauseAll,
    /// Resume all audio.
    ResumeAll,
    /// Set the master volume (bit pattern of an `f32`); this changes the
    /// audio settings, not the playback state.
    SetMasterVolume(u32),
}

/// What is playing.
#[derive(Clone, Debug)]
pub struct AudioState {
    /// The music last started.
    pub current_music: Option<String>,
    /// Whether that music loops.
    pub music_looping: bool,
    /// Whether music is playing.
    pub music_playing: bool,
    /// Whether all audio is paused.
    pub paused: bool,
    /// The sound effect last played.
    pub last_played_sound: Option<String>,
    /// Bit pattern of the `f32` volume of that sound.
    pub last_sound_volume_bits: u32,
}

/// The text of an optional string.
pub open spec fn opt_view(s: Option<String>) -> Option<Seq<char>> {
    match s {
        Some(t) => Some(t@),
        None => None,
    }
}

/// Mathematical model of an [`AudioState`].
pub struct AudioStateView {
    pub current_music: Option<Seq<char>>,
    pub music_looping: bool,
    pub music_playing: bool,
    pub paused: bool,
    pub last_played_sound: Option<Seq<char>>,
    pub last_sound_volume_bits: u32,
}

impl View for AudioState {
    type V = AudioStateView;

    open spec fn view(&self) -> AudioStateView {
        AudioStateView {
            current_music: opt_view(self.current_music),
            music_looping: self.music_looping,
            music_playing: self.music_playing,
            paused: self.paused,
            last_played_sound: opt_view(self.last_played_sound),
            last_sound_volume_bits: self.last_sound_volume_bits,
        }
    }
}

/// The playback state after `event`.
pub open spec fn after_event(s: AudioStateView, event: AudioEvent) -> AudioStateView {
    match event {
        AudioEvent::PlaySound { name, volume_bits } => AudioStateView {
            last_played_sound: Some(name@),
            last_sound_volume_bits: volume_bits,
            ..s
        },
        AudioEvent::PlayMusic { name, looping } => AudioStateView {
            current_music: Some(name@),
            music_looping: looping,
            music_playing: true,
            ..s
        },
        AudioEvent::StopMusic => AudioStateView { music_playing: false, ..s },
        AudioEvent::PauseAll => AudioStateView { paused: true, ..s },
        AudioEvent::ResumeAll => AudioStateView { paused: false, ..s },
        AudioEvent::SetMasterVolume(_) => s,
    }
}

impl Default for AudioState {
    /// Nothing playing, nothing paused, volume bits 0.
    fn default() -> (s: Self)
        ensures
            s@ == (AudioStateView {
                current_music: None,
                music_looping: false,
                music_playing: false,
                paused: false,
                last_played_sound: None,
                last_sound_volume_bits: 0,
            }),
    {
        AudioState {
            current_music: None,
            music_looping: false,
            music_playing: false,
            paused: false,
            last_played_sound: None,
            last_sound_volume_bits: 0,
        }
    }
}

impl AudioState {
    /// Applies one audio event to the playback state.
    pub fn apply_event(&mut self, event: &AudioEvent)
        ensures
            final(self)@ == after_event(old(self)@, *event),
    {
        match event {
            AudioEvent::PlaySound { name, volume_bits } => {
                self.last_played_sound = Some(name.clone());
                self.last_sound_volume_bits = *volume_bits;
            },
            AudioEvent::PlayMusic { name, looping } => {
                self.current_music = Some(name.clone());
                self.music_looping = *looping;
                self.music_playing = true;
            },
            AudioEvent::StopMusic => {
                self.music_playing = false;
            },
            AudioEvent::PauseAll => {
                self.paused = true;
            },
            AudioEvent::ResumeAll => {
                self.paused = false;
            },
            AudioEvent::SetMasterVolume(_) => {},
        }
    }
}

/// Pausing then resuming leaves everything but the pause flag as it was,
/// and the flag cleared; stopping music does not touch the current track.
pub proof fn law_pause_resume_audio(s: AudioStateView)
    ensures
        after_event(after_event(s, AudioEvent::PauseAll), AudioEvent::ResumeAll) == (AudioStateView {
            paused: false,
            ..s
        }),
        after_event(s, AudioEvent::StopMusic).current_music == s.current_music,
        !after_event(s, AudioEvent::StopMusic).music_playing,
{
}

/// What each event changes: playing music records its name and looping
/// flag and starts it; playing a sound records its name and volume;
/// stopping stops the music; pausing and resuming set the pause flag; the
/// master volume leaves the playback state alone. Nothing else changes.
pub proof fn law_audio_event_effects(s: AudioStateView, name: String, looping: bool, volume_bits: u32, vol: u32)
    ensures
        ({
            let m = after_event(s, AudioEvent::PlayMusic { name, looping });
            &&& m.current_music == Some(name@)
            &&& m.music_looping == looping
            &&& m.music_playing
            &&& m.paused == s.paused
            &&& m.last_played_sound == s.last_played_sound
            &&& m.last_sound_volume_bits == s.last_sound_volume_bits
        }),
        ({
            let p = after_event(s, AudioEvent::PlaySound { name, volume_bits });
            &&& p.last_played_sound == Some(name@)
            &&& p.last_sound_volume_bits == volume_bits
            &&& p.current_music == s.current_music
            &&& p.music_looping == s.music_looping
            &&& p.music_playing == s.music_playing
            &&& p.paused == s.paused
        }),
        ({
            let t = after_event(s, AudioEvent::StopMusic);
            &&& !t.music_playing
            &&& t.current_music == s.current_music
            &&& t.music_looping == s.music_looping
            &&& t.paused == s.paused
        }),
        after_event(s, AudioEvent::PauseAll).paused,
        !after_event(s, AudioEvent::ResumeAll).paused,
        after_event(s, AudioEvent::PauseAll).music_playing == s.music_playing,
        after_event(s, AudioEvent::ResumeAll).music_playing == s.music_playing,
        after_event(s, AudioEvent::SetMasterVolume(vol)) == s,
{
}

} // verus!
