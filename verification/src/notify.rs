//! The notification feature's lifecycle: each inbound notification extends
//! an "active until" deadline; once the deadline passes, the per-frame
//! texture refresh stops and the last rendered frame stays frozen until
//! the next notification arrives.
use vstd::prelude::*;

use crate::config::{Fx, Notification, valid_fx};
use crate::codec::{enc_str, enc_fx};
use crate::text::{lit_bytes, append_lit};

verus! {

/// Extra time a notification stays active beyond its requested duration,
/// reserved for the fade transition, in milliseconds.
pub const FADE_EXTRA_MS: i64 = 1000;

/// The deadline one notification sets: now plus its duration (hundredths
/// of a second, hence the factor ten) plus the fade allowance.
pub open spec fn spec_deadline(now_ms: int, duration: int) -> int {
    now_ms + duration * 10 + FADE_EXTRA_MS as int
}

/// A time in milliseconds the deadline arithmetic accepts.
pub open spec fn valid_time(t: int) -> bool {
    -1_000_000_000_000_000 <= t <= 1_000_000_000_000_000
}

/// The notification feature: the deadline its texture refresh runs until,
/// and the directory its embedded web engine is searched in.
pub struct NotificationFeature {
    pub active_until: Option<i64>,
    pub dll_dir: Option<Vec<u8>>,
}

impl NotificationFeature {
    /// A fresh feature: no notification yet, so no texture refresh.
    pub fn new(dll_dir: Option<Vec<u8>>) -> (r: Self)
        ensures
            r.active_until is None,
            r.dll_dir == dll_dir,
    {
        NotificationFeature { active_until: Option::None, dll_dir }
    }

    /// Accepts one notification at the given time: the deadline moves to
    /// its duration plus the fade allowance from now.
    pub fn show(&mut self, now_ms: i64, n: &Notification)
        requires
            valid_time(now_ms as int),
            valid_fx(n@.duration),
        ensures
            final(self).active_until == Option::Some(
                spec_deadline(now_ms as int, n@.duration) as i64,
            ),
            final(self).dll_dir == old(self).dll_dir,
    {
        self.active_until = Option::Some(now_ms + n.duration * 10 + FADE_EXTRA_MS);
    }

    /// Whether the texture still refreshes at the given time: only until
    /// the deadline of the last notification shown.
    pub fn is_refreshing(&self, now_ms: i64) -> (r: bool)
        ensures
            r == match self.active_until {
                Option::Some(d) => now_ms <= d,
                Option::None => false,
            },
    {
        match self.active_until {
            Option::Some(d) => now_ms <= d,
            Option::None => false,
        }
    }
}

/// Law: a notification with a duration of three seconds keeps the texture
/// refreshing for at least four seconds and no longer — the deadline falls
/// exactly four thousand milliseconds after it was shown.
pub proof fn lemma_notification_refresh_window(now_ms: int, t: int)
    ensures
        spec_deadline(now_ms, 300) == now_ms + 4000,
        t <= now_ms + 4000 ==> t <= spec_deadline(now_ms, 300),
        t > now_ms + 4000 ==> t > spec_deadline(now_ms, 300),
{
}

/// The script evaluated inside the embedded page to show a notification:
/// a call of the page's update function with the title, message and
/// duration.
pub open spec fn spec_notification_script(title: Seq<u8>, message: Seq<u8>, duration: int) -> Seq<
    u8,
> {
    lit_bytes("showNotification(") + enc_str(title) + lit_bytes(",") + enc_str(message)
        + lit_bytes(",") + enc_fx(duration) + lit_bytes(")")
}

/// Builds the script call that pushes a notification into the embedded
/// page.
pub fn notification_script(n: &Notification) -> (r: Vec<u8>)
    requires
        crate::config::valid_notification(n@),
    ensures
        r@ == spec_notification_script(n@.title, n@.message, n@.duration),
{
    proof {
        reveal_strlit("showNotification(");
        reveal_strlit(",");
        reveal_strlit(")");
    }
    let mut out: Vec<u8> = Vec::new();
    append_lit(&mut out, "showNotification(");
    crate::codec::encode_str(&mut out, &n.title);
    append_lit(&mut out, ",");
    crate::codec::encode_str(&mut out, &n.message);
    append_lit(&mut out, ",");
    crate::codec::encode_fx(&mut out, n.duration);
    append_lit(&mut out, ")");
    proof {
        assert(out@ =~= spec_notification_script(n@.title, n@.message, n@.duration));
    }
    out
}

/// Candidate paths the embedded web engine's library is searched at: the
/// module's own directory, a relative development-build path, and the
/// system path, in that order.
pub fn ultralight_candidate_paths(dll_dir: &Option<Vec<u8>>) -> (r: Vec<Vec<u8>>)
    ensures
        r@.len() == 3,
        r.deep_view()[0] == match crate::config::opt_view(*dll_dir) {
            Option::Some(d) => d + lit_bytes("/Ultralight.dll"),
            Option::None => lit_bytes("./Ultralight.dll"),
        },
        r.deep_view()[1] == match crate::config::opt_view(*dll_dir) {
            Option::Some(d) => d + lit_bytes("/../../bin/Ultralight.dll"),
            Option::None => lit_bytes("./../../bin/Ultralight.dll"),
        },
        r.deep_view()[2] == lit_bytes("Ultralight.dll"),
{
    proof {
        reveal_strlit("/Ultralight.dll");
        reveal_strlit("./Ultralight.dll");
        reveal_strlit("/../../bin/Ultralight.dll");
        reveal_strlit("./../../bin/Ultralight.dll");
        reveal_strlit("Ultralight.dll");
        reveal_strlit(".");
    }
    let mut first: Vec<u8> = Vec::new();
    let mut second: Vec<u8> = Vec::new();
    match dll_dir {
        Option::Some(d) => {
            crate::codec::append_bytes(&mut first, d);
            append_lit(&mut first, "/Ultralight.dll");
            crate::codec::append_bytes(&mut second, d);
            append_lit(&mut second, "/../../bin/Ultralight.dll");
        },
        Option::None => {
            append_lit(&mut first, "./Ultralight.dll");
            append_lit(&mut second, "./../../bin/Ultralight.dll");
        },
    }
    let mut third: Vec<u8> = Vec::new();
    append_lit(&mut third, "Ultralight.dll");
    let mut r: Vec<Vec<u8>> = Vec::new();
    r.push(first);
    r.push(second);
    r.push(third);
    r
}

} // verus!
