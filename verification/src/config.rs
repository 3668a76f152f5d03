//! Overlay configuration data: crosshair, FPS counter and notification
//! settings, and the command union carried over the control channel.
//!
//! Sizes, offsets, opacities and durations are fixed-point values
//! ([`Fx`]): a count of hundredths of the unit (pixels or seconds).
//! Text fields are UTF-8 bytes restricted to wire-safe bytes so that a
//! command always fits one line of the channel without escaping.
use vstd::prelude::*;

use crate::text::{lit_bytes, wire_safe, append_lit};

verus! {

/// Fixed-point quantity: hundredths of a pixel or of a second.
pub type Fx = i64;

/// Largest magnitude a fixed-point quantity may take.
pub const FX_MAX: i64 = 1_000_000_000_000;

/// A fixed-point value within the supported magnitude.
pub open spec fn valid_fx(v: int) -> bool {
    -(FX_MAX as int) <= v <= FX_MAX as int
}

/// Optional byte-string view.
pub open spec fn opt_view(o: Option<Vec<u8>>) -> Option<Seq<u8>> {
    match o {
        Option::Some(v) => Option::Some(v@),
        Option::None => Option::None,
    }
}

/// Optional grid view.
pub open spec fn opt_grid_view(o: Option<Vec<Vec<bool>>>) -> Option<Seq<Seq<bool>>> {
    match o {
        Option::Some(g) => Option::Some(g.deep_view()),
        Option::None => Option::None,
    }
}

/// Crosshair configuration as pushed over the control channel.
pub struct OverlayCrosshairData {
    pub enabled: bool,
    pub color: Vec<u8>,
    pub size: Fx,
    pub offset_x: Fx,
    pub offset_y: Fx,
    pub grid: Option<Vec<Vec<bool>>>,
    pub crosshair_type: Option<Vec<u8>>,
}

/// Mathematical view of a crosshair configuration.
#[verifier::ext_equal]
pub struct CrosshairView {
    pub enabled: bool,
    pub color: Seq<u8>,
    pub size: int,
    pub offset_x: int,
    pub offset_y: int,
    pub grid: Option<Seq<Seq<bool>>>,
    pub crosshair_type: Option<Seq<u8>>,
}

impl DeepView for OverlayCrosshairData {
    type V = CrosshairView;

    open spec fn deep_view(&self) -> CrosshairView {
        self.view()
    }
}

impl View for OverlayCrosshairData {
    type V = CrosshairView;

    open spec fn view(&self) -> CrosshairView {
        CrosshairView {
            enabled: self.enabled,
            color: self.color@,
            size: self.size as int,
            offset_x: self.offset_x as int,
            offset_y: self.offset_y as int,
            grid: opt_grid_view(self.grid),
            crosshair_type: opt_view(self.crosshair_type),
        }
    }
}

/// Well-formed crosshair configuration: text is wire-safe and the numbers
/// are within the fixed-point range.
pub open spec fn valid_crosshair(c: CrosshairView) -> bool {
    &&& wire_safe(c.color)
    &&& valid_fx(c.size)
    &&& valid_fx(c.offset_x)
    &&& valid_fx(c.offset_y)
    &&& match c.crosshair_type {
        Option::Some(t) => wire_safe(t),
        Option::None => true,
    }
}

impl OverlayCrosshairData {
    /// Field-for-field copy.
    pub fn duplicate(&self) -> (r: Self)
        ensures
            r@ == self@,
    {
        let grid = match &self.grid {
            Option::Some(g) => Option::Some(copy_grid(g)),
            Option::None => Option::None,
        };
        let crosshair_type = match &self.crosshair_type {
            Option::Some(t) => Option::Some(copy_bytes(t)),
            Option::None => Option::None,
        };
        let r = OverlayCrosshairData {
            enabled: self.enabled,
            color: copy_bytes(&self.color),
            size: self.size,
            offset_x: self.offset_x,
            offset_y: self.offset_y,
            grid,
            crosshair_type,
        };
        proof {
            assert(r@ =~= self@);
        }
        r
    }
}

/// The default crosshair: disabled, green, twenty pixels, centred.
pub open spec fn default_crosshair_view() -> CrosshairView {
    CrosshairView {
        enabled: false,
        color: lit_bytes("#00FF00"),
        size: 2000,
        offset_x: 0,
        offset_y: 0,
        grid: Option::None,
        crosshair_type: Option::None,
    }
}

impl Default for OverlayCrosshairData {
    fn default() -> (r: Self)
        ensures
            r@ == default_crosshair_view(),
    {
        proof {
            reveal_strlit("#00FF00");
        }
        let mut color: Vec<u8> = Vec::new();
        append_lit(&mut color, "#00FF00");
        let r = OverlayCrosshairData {
            enabled: false,
            color,
            size: 2000,
            offset_x: 0,
            offset_y: 0,
            grid: Option::None,
            crosshair_type: Option::None,
        };
        proof {
            assert(r@ =~= default_crosshair_view());
        }
        r
    }
}

/// FPS-counter configuration.
pub struct FpsConfig {
    pub enabled: bool,
    pub position: Vec<u8>,
    pub text_color: Vec<u8>,
    pub bg_color: Vec<u8>,
    pub bg_opacity: Fx,
    pub size: Fx,
    pub padding: Fx,
    pub margin: Fx,
}

/// Mathematical view of an FPS-counter configuration.
#[verifier::ext_equal]
pub struct FpsView {
    pub enabled: bool,
    pub position: Seq<u8>,
    pub text_color: Seq<u8>,
    pub bg_color: Seq<u8>,
    pub bg_opacity: int,
    pub size: int,
    pub padding: int,
    pub margin: int,
}

impl DeepView for FpsConfig {
    type V = FpsView;

    open spec fn deep_view(&self) -> FpsView {
        self.view()
    }
}

impl View for FpsConfig {
    type V = FpsView;

    open spec fn view(&self) -> FpsView {
        FpsView {
            enabled: self.enabled,
            position: self.position@,
            text_color: self.text_color@,
            bg_color: self.bg_color@,
            bg_opacity: self.bg_opacity as int,
            size: self.size as int,
            padding: self.padding as int,
            margin: self.margin as int,
        }
    }
}

/// Well-formed FPS configuration.
pub open spec fn valid_fps(c: FpsView) -> bool {
    &&& wire_safe(c.position)
    &&& wire_safe(c.text_color)
    &&& wire_safe(c.bg_color)
    &&& valid_fx(c.bg_opacity)
    &&& valid_fx(c.size)
    &&& valid_fx(c.padding)
    &&& valid_fx(c.margin)
}

/// Default text colour of the FPS counter, used when a configured colour
/// does not parse.
pub fn default_text_color() -> (r: Vec<u8>)
    ensures
        r@ == lit_bytes("#FFFFFF"),
{
    proof {
        reveal_strlit("#FFFFFF");
    }
    let mut v: Vec<u8> = Vec::new();
    append_lit(&mut v, "#FFFFFF");
    v
}

/// Default background colour of the FPS counter.
pub fn default_bg_color() -> (r: Vec<u8>)
    ensures
        r@ == lit_bytes("#000000"),
{
    proof {
        reveal_strlit("#000000");
    }
    let mut v: Vec<u8> = Vec::new();
    append_lit(&mut v, "#000000");
    v
}

/// The default FPS counter: disabled, top-left, white on half-opaque black.
pub open spec fn default_fps_view() -> FpsView {
    FpsView {
        enabled: false,
        position: lit_bytes("TopLeft"),
        text_color: lit_bytes("#FFFFFF"),
        bg_color: lit_bytes("#000000"),
        bg_opacity: 50,
        size: 1400,
        padding: 500,
        margin: 1000,
    }
}

impl Default for FpsConfig {
    fn default() -> (r: Self)
        ensures
            r@ == default_fps_view(),
    {
        proof {
            reveal_strlit("TopLeft");
        }
        let mut position: Vec<u8> = Vec::new();
        append_lit(&mut position, "TopLeft");
        let r = FpsConfig {
            enabled: false,
            position,
            text_color: default_text_color(),
            bg_color: default_bg_color(),
            bg_opacity: 50,
            size: 1400,
            padding: 500,
            margin: 1000,
        };
        proof {
            assert(r@ =~= default_fps_view());
        }
        r
    }
}

impl FpsConfig {
    /// Field-for-field copy.
    pub fn duplicate(&self) -> (r: Self)
        ensures
            r@ == self@,
    {
        let r = FpsConfig {
            enabled: self.enabled,
            position: copy_bytes(&self.position),
            text_color: copy_bytes(&self.text_color),
            bg_color: copy_bytes(&self.bg_color),
            bg_opacity: self.bg_opacity,
            size: self.size,
            padding: self.padding,
            margin: self.margin,
        };
        proof {
            assert(r@ =~= self@);
        }
        r
    }
}

/// A toast notification pushed to the overlay.
pub struct Notification {
    pub id: Vec<u8>,
    pub title: Vec<u8>,
    pub message: Vec<u8>,
    pub duration: Fx,
    pub elapsed: Fx,
}

/// Mathematical view of a notification.
#[verifier::ext_equal]
pub struct NotificationView {
    pub id: Seq<u8>,
    pub title: Seq<u8>,
    pub message: Seq<u8>,
    pub duration: int,
    pub elapsed: int,
}

impl DeepView for Notification {
    type V = NotificationView;

    open spec fn deep_view(&self) -> NotificationView {
        self.view()
    }
}

impl View for Notification {
    type V = NotificationView;

    open spec fn view(&self) -> NotificationView {
        NotificationView {
            id: self.id@,
            title: self.title@,
            message: self.message@,
            duration: self.duration as int,
            elapsed: self.elapsed as int,
        }
    }
}

/// Well-formed notification.
pub open spec fn valid_notification(n: NotificationView) -> bool {
    &&& wire_safe(n.id)
    &&& wire_safe(n.title)
    &&& wire_safe(n.message)
    &&& valid_fx(n.duration)
    &&& valid_fx(n.elapsed)
}

impl Notification {
    /// Field-for-field copy.
    pub fn duplicate(&self) -> (r: Self)
        ensures
            r@ == self@,
    {
        let r = Notification {
            id: copy_bytes(&self.id),
            title: copy_bytes(&self.title),
            message: copy_bytes(&self.message),
            duration: self.duration,
            elapsed: self.elapsed,
        };
        proof {
            assert(r@ =~= self@);
        }
        r
    }
}

/// One control-channel command.
pub enum Command {
    UpdateCrosshair(OverlayCrosshairData),
    ShowNotification(Notification),
    UpdateFps(FpsConfig),
    ToggleOverlay(bool),
}

/// Mathematical view of a command.
#[verifier::ext_equal]
pub enum CommandView {
    UpdateCrosshair(CrosshairView),
    ShowNotification(NotificationView),
    UpdateFps(FpsView),
    ToggleOverlay(bool),
}

impl DeepView for Command {
    type V = CommandView;

    open spec fn deep_view(&self) -> CommandView {
        self.view()
    }
}

impl View for Command {
    type V = CommandView;

    open spec fn view(&self) -> CommandView {
        match self {
            Command::UpdateCrosshair(c) => CommandView::UpdateCrosshair(c@),
            Command::ShowNotification(n) => CommandView::ShowNotification(n@),
            Command::UpdateFps(f) => CommandView::UpdateFps(f@),
            Command::ToggleOverlay(b) => CommandView::ToggleOverlay(*b),
        }
    }
}

/// Well-formed command.
pub open spec fn valid_command(c: CommandView) -> bool {
    match c {
        CommandView::UpdateCrosshair(d) => valid_crosshair(d),
        CommandView::ShowNotification(n) => valid_notification(n),
        CommandView::UpdateFps(f) => valid_fps(f),
        CommandView::ToggleOverlay(_) => true,
    }
}

impl Command {
    /// Field-for-field copy.
    pub fn duplicate(&self) -> (r: Self)
        ensures
            r@ == self@,
    {
        match self {
            Command::UpdateCrosshair(c) => Command::UpdateCrosshair(c.duplicate()),
            Command::ShowNotification(n) => Command::ShowNotification(n.duplicate()),
            Command::UpdateFps(f) => Command::UpdateFps(f.duplicate()),
            Command::ToggleOverlay(b) => Command::ToggleOverlay(*b),
        }
    }
}

/// A user-defined crosshair grid with its identifier.
pub struct CustomCrosshair {
    pub id: Vec<u8>,
    pub name: Vec<u8>,
    pub grid: Vec<Vec<bool>>,
}

/// Byte-for-byte copy of a byte string.
pub fn copy_bytes(v: &Vec<u8>) -> (r: Vec<u8>)
    ensures
        r@ == v@,
{
    let mut r: Vec<u8> = Vec::new();
    let mut i: usize = 0;
    while i < v.len()
        invariant
            0 <= i <= v@.len(),
            r@ == v@.take(i as int),
        decreases v@.len() - i,
    {
        r.push(v[i]);
        proof {
            assert(r@ =~= v@.take(i + 1));
        }
        i += 1;
    }
    proof {
        assert(v@.take(v@.len() as int) =~= v@);
    }
    r
}

/// Row-for-row copy of a grid.
pub fn copy_grid(g: &Vec<Vec<bool>>) -> (r: Vec<Vec<bool>>)
    ensures
        r.deep_view() == g.deep_view(),
{
    let mut r: Vec<Vec<bool>> = Vec::new();
    let mut i: usize = 0;
    while i < g.len()
        invariant
            0 <= i <= g@.len(),
            r@.len() == i,
            forall|k: int| 0 <= k < i ==> #[trigger] r@[k].deep_view() == g@[k].deep_view(),
        decreases g@.len() - i,
    {
        let mut row: Vec<bool> = Vec::new();
        let mut j: usize = 0;
        let gi = &g[i];
        while j < gi.len()
            invariant
                0 <= j <= gi@.len(),
                row@ == gi@.take(j as int),
            decreases gi@.len() - j,
        {
            row.push(gi[j]);
            proof {
                assert(row@ =~= gi@.take(j + 1));
            }
            j += 1;
        }
        proof {
            assert(row@ =~= gi@);
            assert(row.deep_view() =~= gi.deep_view());
        }
        r.push(row);
        i += 1;
    }
    proof {
        assert(r.deep_view() =~~= g.deep_view());
    }
    r
}

/// View of a user-defined crosshair.
pub struct CustomView {
    pub id: Seq<u8>,
    pub name: Seq<u8>,
    pub grid: Seq<Seq<bool>>,
}

impl View for CustomCrosshair {
    type V = CustomView;

    open spec fn view(&self) -> CustomView {
        CustomView { id: self.id@, name: self.name@, grid: self.grid.deep_view() }
    }
}

impl DeepView for CustomCrosshair {
    type V = CustomView;

    open spec fn deep_view(&self) -> CustomView {
        self.view()
    }
}

/// The grid of the first user-defined crosshair with the given id, if any.
pub open spec fn spec_find_custom(s: Seq<CustomView>, id: Seq<u8>) -> Option<Seq<Seq<bool>>>
    decreases s.len(),
{
    if s.len() == 0 {
        Option::None
    } else if s[0].id == id {
        Option::Some(s[0].grid)
    } else {
        spec_find_custom(s.drop_first(), id)
    }
}

/// The five built-in grid renderings a shape identifier may also name.
pub open spec fn spec_builtin_grid(id: Seq<u8>) -> Option<Seq<Seq<bool>>> {
    if id == lit_bytes("svg1") {
        Option::Some(
            seq![
                seq![false, false, true, false, false],
                seq![false, false, true, false, false],
                seq![true, true, true, true, true],
                seq![false, false, true, false, false],
                seq![false, false, true, false, false],
            ],
        )
    } else if id == lit_bytes("svg2") {
        Option::Some(
            seq![
                seq![true, true, true, true, true],
                seq![true, false, false, false, true],
                seq![true, false, true, false, true],
                seq![true, false, false, false, true],
                seq![true, true, true, true, true],
            ],
        )
    } else if id == lit_bytes("svg3") {
        Option::Some(
            seq![
                seq![true, true, false, true, true],
                seq![true, false, false, false, true],
                seq![false, false, false, false, false],
                seq![true, false, false, false, true],
                seq![true, true, false, true, true],
            ],
        )
    } else if id == lit_bytes("svg4") {
        Option::Some(
            seq![
                seq![false, false, true, false, false],
                seq![false, false, true, false, false],
                seq![true, true, false, true, true],
                seq![false, false, true, false, false],
                seq![false, false, true, false, false],
            ],
        )
    } else if id == lit_bytes("svg5") {
        Option::Some(seq![seq![false, true, false], seq![true, true, true], seq![false, true, false]])
    } else {
        Option::None
    }
}

/// What a shape identifier resolves to as a grid: a user-defined
/// crosshair's grid first, then a built-in one, then nothing.
pub open spec fn spec_grid_for(id: Seq<u8>, custom: Seq<CustomView>) -> Option<Seq<Seq<bool>>> {
    match spec_find_custom(custom, id) {
        Option::Some(g) => Option::Some(g),
        Option::None => spec_builtin_grid(id),
    }
}

/// Resolves a shape identifier to a grid: a user-defined crosshair wins
/// over the built-in grids of the same name.
pub fn get_grid_for_crosshair(id: &Vec<u8>, custom_crosshairs: &Vec<CustomCrosshair>) -> (r: Option<
    Vec<Vec<bool>>,
>)
    ensures
        opt_grid_view(r) == spec_grid_for(id@, custom_crosshairs.deep_view()),
{
    proof {
        reveal_strlit("svg1");
        reveal_strlit("svg2");
        reveal_strlit("svg3");
        reveal_strlit("svg4");
        reveal_strlit("svg5");
    }
    let ghost cv = custom_crosshairs.deep_view();
    let mut i: usize = 0;
    proof {
        assert(cv.skip(0) =~= cv);
    }
    while i < custom_crosshairs.len()
        invariant
            cv == custom_crosshairs.deep_view(),
            cv.len() == custom_crosshairs@.len(),
            0 <= i <= cv.len(),
            spec_find_custom(cv, id@) == spec_find_custom(cv.skip(i as int), id@),
        decreases cv.len() - i,
    {
        proof {
            assert(cv.skip(i as int)[0] == custom_crosshairs@[i as int]@);
            assert(cv.skip(i as int).drop_first() =~= cv.skip(i + 1));
        }
        if crate::text::bytes_eq(&custom_crosshairs[i].id, id) {
            let g = copy_grid(&custom_crosshairs[i].grid);
            proof {
                assert(spec_find_custom(cv.skip(i as int), id@) == Option::Some(
                    custom_crosshairs@[i as int]@.grid,
                ));
            }
            return Option::Some(g);
        }
        i += 1;
    }
    proof {
        assert(cv.skip(cv.len() as int) =~= Seq::<CustomView>::empty());
        assert(spec_find_custom(cv, id@) is None);
    }
    if crate::text::bytes_eq_lit(id, "svg1") {
        let g = vec![
            vec![false, false, true, false, false],
            vec![false, false, true, false, false],
            vec![true, true, true, true, true],
            vec![false, false, true, false, false],
            vec![false, false, true, false, false],
        ];
        proof {
            assert(g.deep_view() =~~= spec_builtin_grid(id@)->Some_0);
        }
        Option::Some(g)
    } else if crate::text::bytes_eq_lit(id, "svg2") {
        let g = vec![
            vec![true, true, true, true, true],
            vec![true, false, false, false, true],
            vec![true, false, true, false, true],
            vec![true, false, false, false, true],
            vec![true, true, true, true, true],
        ];
        proof {
            assert(g.deep_view() =~~= spec_builtin_grid(id@)->Some_0);
        }
        Option::Some(g)
    } else if crate::text::bytes_eq_lit(id, "svg3") {
        let g = vec![
            vec![true, true, false, true, true],
            vec![true, false, false, false, true],
            vec![false, false, false, false, false],
            vec![true, false, false, false, true],
            vec![true, true, false, true, true],
        ];
        proof {
            assert(g.deep_view() =~~= spec_builtin_grid(id@)->Some_0);
        }
        Option::Some(g)
    } else if crate::text::bytes_eq_lit(id, "svg4") {
        let g = vec![
            vec![false, false, true, false, false],
            vec![false, false, true, false, false],
            vec![true, true, false, true, true],
            vec![false, false, true, false, false],
            vec![false, false, true, false, false],
        ];
        proof {
            assert(g.deep_view() =~~= spec_builtin_grid(id@)->Some_0);
        }
        Option::Some(g)
    } else if crate::text::bytes_eq_lit(id, "svg5") {
        let g = vec![vec![false, true, false], vec![true, true, true], vec![false, true, false]];
        proof {
            assert(g.deep_view() =~~= spec_builtin_grid(id@)->Some_0);
        }
        Option::Some(g)
    } else {
        Option::None
    }
}

/// How a selected crosshair identifier is pushed over the channel: a
/// user-defined crosshair is sent as its grid under the grid shape name;
/// any other selection is sent as the named shape with no grid.
pub open spec fn spec_resolve_selection(id: Seq<u8>, custom: Seq<CustomView>) -> (
    Option<Seq<Seq<bool>>>,
    Seq<u8>,
) {
    match spec_find_custom(custom, id) {
        Option::Some(g) => (Option::Some(g), lit_bytes("grid")),
        Option::None => (Option::None, id),
    }
}

/// Resolves a crosshair selection for an update command.
pub fn resolve_crosshair_selection(id: &Vec<u8>, custom_crosshairs: &Vec<CustomCrosshair>) -> (r: (
    Option<Vec<Vec<bool>>>,
    Vec<u8>,
))
    ensures
        (opt_grid_view(r.0), r.1@) == spec_resolve_selection(id@, custom_crosshairs.deep_view()),
{
    proof {
        reveal_strlit("grid");
    }
    let ghost cv = custom_crosshairs.deep_view();
    let mut i: usize = 0;
    proof {
        assert(cv.skip(0) =~= cv);
    }
    while i < custom_crosshairs.len()
        invariant
            cv == custom_crosshairs.deep_view(),
            cv.len() == custom_crosshairs@.len(),
            0 <= i <= cv.len(),
            spec_find_custom(cv, id@) == spec_find_custom(cv.skip(i as int), id@),
        decreases cv.len() - i,
    {
        proof {
            assert(cv.skip(i as int)[0] == custom_crosshairs@[i as int]@);
            assert(cv.skip(i as int).drop_first() =~= cv.skip(i + 1));
        }
        if crate::text::bytes_eq(&custom_crosshairs[i].id, id) {
            let g = copy_grid(&custom_crosshairs[i].grid);
            let mut name: Vec<u8> = Vec::new();
            proof {
                reveal_strlit("grid");
            }
            append_lit(&mut name, "grid");
            proof {
                assert(spec_find_custom(cv.skip(i as int), id@) == Option::Some(
                    custom_crosshairs@[i as int]@.grid,
                ));
            }
            return (Option::Some(g), name);
        }
        i += 1;
    }
    proof {
        assert(cv.skip(cv.len() as int) =~= Seq::<CustomView>::empty());
        assert(spec_find_custom(cv, id@) is None);
    }
    (Option::None, copy_bytes(id))
}

} // verus!
