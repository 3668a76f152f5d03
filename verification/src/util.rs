//! Small host-side data types and the fixed-buffer and path helpers the
//! capture and session plumbing hand their values through.
use vstd::prelude::*;

use vstd::string::StringSliceAdditionalSpecFns;
use crate::config::Fx;
use crate::text::lit_bytes;

verus! {

/// An audio capture source.
#[derive(Clone, Copy, Debug, PartialEq, Eq, Structural)]
pub enum AudioSource {
    NoAudio,
    Desktop,
    Game,
    GameAndDiscord,
}

/// A user's presence state.
#[derive(Clone, Copy, Debug, PartialEq, Eq, Structural)]
pub enum Status {
    Offline,
    Online,
    Idle,
    DoNotDisturb,
    Invisible,
}

/// A signed-in user as the session plumbing carries it.
pub struct UserData {
    pub id: u32,
    pub name: Vec<u8>,
    pub status: Status,
    pub friends: Vec<u32>,
}

/// One input device offered to the capture settings.
pub struct Microphone {
    pub id: Vec<u8>,
    pub name: Vec<u8>,
}

/// The files one saved clip consists of.
pub struct ClipPaths {
    pub video: Vec<u8>,
    pub audio: Vec<u8>,
}

/// Seconds a session token stays valid.
pub const TOKEN_LIFETIME_SECS: u64 = 86400;

/// Claims of a session token.
pub struct JwtClaims {
    pub user_id: u32,
    pub username: Vec<u8>,
    pub exp: u64,
}

impl JwtClaims {
    /// Claims for a user, expiring one token lifetime after `now_secs`.
    pub fn new(user_id: u32, username: Vec<u8>, now_secs: u64) -> (r: Self)
        requires
            now_secs + TOKEN_LIFETIME_SECS <= u64::MAX,
        ensures
            r.user_id == user_id,
            r.username@ == username@,
            r.exp == now_secs + TOKEN_LIFETIME_SECS,
    {
        JwtClaims { user_id, username, exp: now_secs + TOKEN_LIFETIME_SECS }
    }
}

/// What a fixed buffer holds after a string is copied in: the string's
/// bytes truncated to leave room for one terminating zero, zero-filled to
/// the end.
pub open spec fn spec_fixed_buffer(bytes: Seq<u8>, n: int, i: int) -> u8 {
    if i < bytes.len() && i < n - 1 {
        bytes[i]
    } else {
        0
    }
}

/// Copies a string into a fixed-size zero-terminated buffer, truncating
/// to leave the terminator in place.
pub fn string_to_array<const N: usize>(s: &str) -> (r: [u8; N])
    requires
        N >= 1,
    ensures
        forall|i: int| 0 <= i < N ==> r@[i] == spec_fixed_buffer(s.spec_bytes(), N as int, i),
{
    let bytes = s.as_bytes_vec();
    let mut buf = [0u8; N];
    proof {
        assert(forall|i: int| 0 <= i < N ==> buf@[i] == 0);
        assert(bytes@.len() == bytes.len());
    }
    let len = if bytes.len() < N - 1 {
        bytes.len()
    } else {
        N - 1
    };
    let mut i: usize = 0;
    while i < len
        invariant
            len <= N - 1,
            N >= 1,
            len <= bytes@.len(),
            buf@.len() == N,
            0 <= i <= len,
            forall|j: int| 0 <= j < i ==> buf@[j] == bytes@[j],
            forall|j: int| i <= j < N ==> buf@[j] == 0,
        decreases len - i,
    {
        buf.set(i, bytes[i]);
        i += 1;
    }
    buf
}

/// What a fixed buffer holds after a zero-terminated string is copied in:
/// the bytes, then one zero, truncated to the buffer, zero-filled after.
pub open spec fn spec_nul_buffer(bytes: Seq<u8>, n: int, i: int) -> u8 {
    if i < bytes.len() && i < n {
        bytes[i]
    } else {
        0
    }
}

/// Copies a string with its zero terminator into a fixed-size buffer,
/// truncating if it does not fit. The string must hold no interior zero
/// byte.
pub fn make_buffer_from_str<const N: usize>(s: &str) -> (r: [u8; N])
    requires
        forall|i: int| 0 <= i < s.spec_bytes().len() ==> s.spec_bytes()[i] != 0,
    ensures
        forall|i: int| 0 <= i < N ==> r@[i] == spec_nul_buffer(s.spec_bytes(), N as int, i),
{
    let bytes = s.as_bytes_vec();
    let mut buf = [0u8; N];
    proof {
        assert(forall|i: int| 0 <= i < N ==> buf@[i] == 0);
        assert(bytes@.len() == bytes.len());
    }
    let len = if bytes.len() < N {
        bytes.len()
    } else {
        N
    };
    let mut i: usize = 0;
    while i < len
        invariant
            len <= N,
            len <= bytes@.len(),
            buf@.len() == N,
            0 <= i <= len,
            forall|j: int| 0 <= j < i ==> buf@[j] == bytes@[j],
            forall|j: int| i <= j < N ==> buf@[j] == 0,
        decreases len - i,
    {
        buf.set(i, bytes[i]);
        i += 1;
    }
    buf
}


/// The audio-capture session: the desktop and microphone stream slots the
/// recorder holds while capturing. The streams themselves are platform
/// handles owned outside the library; here each slot carries the caller's
/// handle for it.
pub struct AudioCapture {
    pub desktop: Option<u64>,
    pub mic: Option<u64>,
}

impl AudioCapture {
    /// No capture running.
    pub fn new() -> (r: Self)
        ensures
            r.desktop is None,
            r.mic is None,
    {
        AudioCapture { desktop: Option::None, mic: Option::None }
    }

    /// Begins a capture with the given stream handles.
    pub fn start(&mut self, desktop: Option<u64>, mic: Option<u64>)
        ensures
            final(self).desktop == desktop,
            final(self).mic == mic,
    {
        self.desktop = desktop;
        self.mic = mic;
    }

    /// Stops the capture: both stream slots are cleared, so the caller
    /// drops the underlying streams. Stopping an idle session is a no-op.
    pub fn stop_audio_capture(&mut self)
        ensures
            final(self).desktop is None,
            final(self).mic is None,
    {
        self.desktop = Option::None;
        self.mic = Option::None;
    }
}

/// Whether `s` ends with the given suffix.
pub open spec fn ends_with(s: Seq<u8>, suffix: Seq<u8>) -> bool {
    s.len() >= suffix.len() && s.subrange(s.len() - suffix.len(), s.len() as int) == suffix
}

/// The name a clip's companion file gets: the video suffix is replaced by
/// the given ending; a name without the video suffix is left whole and
/// the ending appended.
pub open spec fn spec_companion(video: Seq<u8>, ending: Seq<u8>) -> Seq<u8> {
    if ends_with(video, lit_bytes(".mp4")) {
        video.take(video.len() - 4) + ending
    } else {
        video + ending
    }
}

/// Derives one companion file name from a clip's video file name.
pub fn companion_path(video: &Vec<u8>, ending: &str) -> (r: Vec<u8>)
    requires
        ending.is_ascii(),
        ending@.len() <= usize::MAX,
    ensures
        r@ == spec_companion(video@, lit_bytes(ending)),
{
    proof {
        reveal_strlit(".mp4");
        assert(video@.len() == video.len());
    }
    let n = video.len();
    let mut r: Vec<u8> = Vec::new();
    let stem = if n >= 4 && crate::text::eat_lit(video, n - 4, ".mp4") {
        proof {
            assert(video@.subrange(n - 4, n as int) =~= lit_bytes(".mp4"));
            assert(ends_with(video@, lit_bytes(".mp4")));
        }
        n - 4
    } else {
        proof {
            if ends_with(video@, lit_bytes(".mp4")) {
                assert(crate::text::match_at(video@, n - 4, lit_bytes(".mp4")));
            }
        }
        n
    };
    let mut i: usize = 0;
    while i < stem
        invariant
            stem <= video@.len(),
            0 <= i <= stem,
            r@ == video@.take(i as int),
        decreases stem - i,
    {
        r.push(video[i]);
        proof {
            assert(r@ =~= video@.take(i + 1));
        }
        i += 1;
    }
    crate::text::append_lit(&mut r, ending);
    proof {
        if stem == n {
            assert(video@.take(n as int) =~= video@);
        }
    }
    r
}

/// The two audio files saved beside a clip's video file.
pub fn clip_audio_paths(video: &Vec<u8>) -> (r: ClipPaths)
    ensures
        r.video@ == spec_companion(video@, lit_bytes("_desktop.wav")),
        r.audio@ == spec_companion(video@, lit_bytes("_mic.wav")),
{
    proof {
        reveal_strlit("_desktop.wav");
        reveal_strlit("_mic.wav");
    }
    ClipPaths {
        video: companion_path(video, "_desktop.wav"),
        audio: companion_path(video, "_mic.wav"),
    }
}

/// Capture settings with their fixed-point volumes and plain text fields,
/// as the capture plumbing receives them.
pub struct CaptureConfigArgs {
    pub fps: i32,
    pub clip_length: i32,
    pub audio_volume: Fx,
    pub microphone_volume: Fx,
    pub audio_mode: AudioSource,
    pub capture_microphone: bool,
    pub noise_suppression: bool,
    pub clips_directory: Vec<u8>,
    pub monitor_device_id: Vec<u8>,
    pub microphone_device_id: Vec<u8>,
}

} // verus!
