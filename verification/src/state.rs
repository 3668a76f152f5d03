//! The mutex-guarded overlay state: the aggregate the control-channel
//! reader mutates and the render callback reads once per frame.
use vstd::prelude::*;

use crate::config::{
    Command, CommandView, CrosshairView, FpsConfig, FpsView, Notification, NotificationView,
    OverlayCrosshairData, default_crosshair_view, default_fps_view, opt_view,
};

verus! {

/// In-process overlay state, owned by one render-hook runtime.
pub struct OverlayState {
    pub enabled: bool,
    pub crosshair: OverlayCrosshairData,
    pub notifications: Vec<Notification>,
    pub fps: FpsConfig,
    pub dll_dir: Option<Vec<u8>>,
}

/// Mathematical view of the overlay state.
#[verifier::ext_equal]
pub struct StateView {
    pub enabled: bool,
    pub crosshair: CrosshairView,
    pub notifications: Seq<NotificationView>,
    pub fps: FpsView,
    pub dll_dir: Option<Seq<u8>>,
}

impl View for OverlayState {
    type V = StateView;

    open spec fn view(&self) -> StateView {
        StateView {
            enabled: self.enabled,
            crosshair: self.crosshair@,
            notifications: self.notifications.deep_view(),
            fps: self.fps@,
            dll_dir: opt_view(self.dll_dir),
        }
    }
}

/// The state a fresh runtime starts from: overlay shown, every feature at
/// its default, no notification yet.
pub open spec fn default_state_view() -> StateView {
    StateView {
        enabled: true,
        crosshair: default_crosshair_view(),
        notifications: Seq::empty(),
        fps: default_fps_view(),
        dll_dir: Option::None,
    }
}

impl Default for OverlayState {
    fn default() -> (r: Self)
        ensures
            r@ == default_state_view(),
    {
        let r = OverlayState {
            enabled: true,
            crosshair: OverlayCrosshairData::default(),
            notifications: Vec::new(),
            fps: FpsConfig::default(),
            dll_dir: Option::None,
        };
        proof {
            assert(r@ =~= default_state_view());
        }
        r
    }
}


/// Well-formed overlay state: every configuration it aggregates is
/// well-formed.
pub open spec fn valid_state(s: StateView) -> bool {
    &&& crate::config::valid_crosshair(s.crosshair)
    &&& crate::config::valid_fps(s.fps)
    &&& forall|i: int|
        0 <= i < s.notifications.len() ==> crate::config::valid_notification(
            #[trigger] s.notifications[i],
        )
}

/// A well-formed command applied to a well-formed state leaves it
/// well-formed.
pub proof fn lemma_apply_preserves_valid(s: StateView, c: CommandView)
    requires
        valid_state(s),
        crate::config::valid_command(c),
    ensures
        valid_state(spec_apply(s, c)),
{
    match c {
        CommandView::ShowNotification(n) => {
            let s2 = spec_apply(s, c);
            assert forall|i: int| 0 <= i < s2.notifications.len() implies
                crate::config::valid_notification(#[trigger] s2.notifications[i]) by {
                if i < s.notifications.len() {
                    assert(s2.notifications[i] == s.notifications[i]);
                }
            }
        },
        _ => {},
    }
}

/// What one command does to the state: a crosshair or FPS update fully
/// replaces the previous configuration, a notification is appended, and a
/// toggle sets the overlay's enabled flag.
pub open spec fn spec_apply(s: StateView, c: CommandView) -> StateView {
    match c {
        CommandView::UpdateCrosshair(d) => StateView { crosshair: d, ..s },
        CommandView::ShowNotification(n) => StateView {
            notifications: s.notifications.push(n),
            ..s
        },
        CommandView::UpdateFps(f) => StateView { fps: f, ..s },
        CommandView::ToggleOverlay(b) => StateView { enabled: b, ..s },
    }
}

/// Commands applied first to last.
pub open spec fn spec_apply_all(s: StateView, cmds: Seq<CommandView>) -> StateView
    decreases cmds.len(),
{
    if cmds.len() == 0 {
        s
    } else {
        spec_apply_all(spec_apply(s, cmds[0]), cmds.drop_first())
    }
}

impl OverlayState {
    /// Applies one command, as the channel-reader thread does for each
    /// complete line it parses.
    pub fn apply_command(&mut self, c: Command)
        ensures
            final(self)@ == spec_apply(old(self)@, c@),
    {
        match c {
            Command::UpdateCrosshair(d) => {
                self.crosshair = d;
            },
            Command::ShowNotification(n) => {
                self.notifications.push(n);
            },
            Command::UpdateFps(f) => {
                self.fps = f;
            },
            Command::ToggleOverlay(b) => {
                self.enabled = b;
            },
        }
        proof {
            assert(self@ =~= spec_apply(old(self)@, c@));
        }
    }

    /// Applies a batch of commands in order.
    pub fn apply_all(&mut self, cmds: Vec<Command>)
        ensures
            final(self)@ == spec_apply_all(old(self)@, cmds.deep_view()),
    {
        let ghost all = cmds.deep_view();
        let mut i: usize = 0;
        let n = cmds.len();
        let mut cmds = cmds;
        proof {
            assert(all.skip(0) =~= all);
        }
        while i < n
            invariant
                n == cmds@.len(),
                cmds.deep_view() == all,
                0 <= i <= n,
                spec_apply_all(old(self)@, all) == spec_apply_all(self@, all.skip(i as int)),
            decreases n - i,
        {
            let c = cmds[i].duplicate();
            proof {
                assert(cmds.deep_view()[i as int] == cmds@[i as int]@);
                assert(all.skip(i as int)[0] == c@);
                assert(all.skip(i as int).drop_first() =~= all.skip(i + 1));
            }
            self.apply_command(c);
            i += 1;
        }
        proof {
            assert(all.skip(n as int) =~= Seq::<CommandView>::empty());
        }
    }
}

/// Law: a run of crosshair updates applied in order leaves the state
/// reflecting exactly the last update's configuration, with every other
/// part of the state unchanged.
pub proof fn lemma_last_crosshair_update_wins(s: StateView, cmds: Seq<CommandView>)
    requires
        cmds.len() > 0,
        forall|i: int| 0 <= i < cmds.len() ==> #[trigger] cmds[i] is UpdateCrosshair,
    ensures
        spec_apply_all(s, cmds) == (StateView {
            crosshair: cmds.last()->UpdateCrosshair_0,
            ..s
        }),
    decreases cmds.len(),
{
    let s1 = spec_apply(s, cmds[0]);
    if cmds.len() == 1 {
        assert(spec_apply_all(s1, cmds.drop_first()) == s1);
        assert(s1 =~= StateView { crosshair: cmds.last()->UpdateCrosshair_0, ..s });
    } else {
        let rest = cmds.drop_first();
        assert(forall|i: int| 0 <= i < rest.len() ==> #[trigger] rest[i] is UpdateCrosshair);
        lemma_last_crosshair_update_wins(s1, rest);
        assert(rest.last() == cmds.last());
        assert((StateView { crosshair: rest.last()->UpdateCrosshair_0, ..s1 }) =~= (StateView {
            crosshair: cmds.last()->UpdateCrosshair_0,
            ..s
        }));
    }
}

} // verus!
