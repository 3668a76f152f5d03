//! The host-side injector: classifying a target process into a graphics
//! backend, preparing the handoff configuration the injected module reads
//! at load time, naming the per-process artefacts, and tracking which
//! processes are already injected.
use vstd::prelude::*;

use crate::Backend;
use crate::text::{lit_bytes, to_lower, contains_seq, contains_bytes, lower_ascii, append_lit, wire_safe, match_at};
use crate::codec::{enc_u64, enc_str, encode_u64, p_lit, p_str, lemma_match_concat, lemma_parse_enc_str, expect_lit, encode_str};

verus! {

/// The backend a process name is classified to: the known engine
/// executable gets the newest API, Java-based titles get OpenGL, and
/// anything unknown defaults to the most widely supported API.
pub open spec fn spec_classify(name: Seq<u8>) -> Backend {
    let lower = to_lower(name);
    if contains_seq(lower, lit_bytes("minecraft.windows")) {
        Backend::Dx12
    } else if contains_seq(lower, lit_bytes("javaw")) || contains_seq(lower, lit_bytes("minecraft")) {
        Backend::OpenGl
    } else {
        Backend::Dx11
    }
}

/// Classifies a process image name, case-insensitively.
pub fn classify_backend(name: &Vec<u8>) -> (r: Backend)
    ensures
        r == spec_classify(name@),
{
    proof {
        reveal_strlit("minecraft.windows");
        reveal_strlit("javaw");
        reveal_strlit("minecraft");
    }
    let lower = lower_ascii(name);
    if contains_bytes(&lower, "minecraft.windows") {
        Backend::Dx12
    } else if contains_bytes(&lower, "javaw") || contains_bytes(&lower, "minecraft") {
        Backend::OpenGl
    } else {
        Backend::Dx11
    }
}

/// Law: a process name in which no known pattern occurs is classified to
/// the default backend.
pub proof fn lemma_unknown_defaults_to_dx11(name: Seq<u8>)
    requires
        !contains_seq(to_lower(name), lit_bytes("minecraft.windows")),
        !contains_seq(to_lower(name), lit_bytes("javaw")),
        !contains_seq(to_lower(name), lit_bytes("minecraft")),
    ensures
        spec_classify(name) == Backend::Dx11,
{
}

/// Law: a name matching a known OpenGL-based pattern — and not the known
/// newer-engine executable — is classified to the OpenGL backend.
pub proof fn lemma_opengl_pattern(name: Seq<u8>)
    requires
        contains_seq(to_lower(name), lit_bytes("javaw")) || contains_seq(
            to_lower(name),
            lit_bytes("minecraft"),
        ),
        !contains_seq(to_lower(name), lit_bytes("minecraft.windows")),
    ensures
        spec_classify(name) == Backend::OpenGl,
{
}

/// Game identifier a known process name is detected as, or nothing.
pub open spec fn spec_detect_game(name: Seq<u8>) -> Option<Seq<u8>> {
    let lower = to_lower(name);
    if lower == lit_bytes("boplbattle.exe") {
        Option::Some(lit_bytes("bopl-battle"))
    } else if lower == lit_bytes("javaw.exe") {
        Option::Some(lit_bytes("minecraft-java"))
    } else if lower == lit_bytes("minecraft.windows.exe") {
        Option::Some(lit_bytes("minecraft-bedrock"))
    } else {
        Option::None
    }
}

/// Detects a known game from a process image name, case-insensitively.
pub fn detect_game(name: &Vec<u8>) -> (r: Option<Vec<u8>>)
    ensures
        crate::config::opt_view(r) == spec_detect_game(name@),
{
    proof {
        reveal_strlit("boplbattle.exe");
        reveal_strlit("bopl-battle");
        reveal_strlit("javaw.exe");
        reveal_strlit("minecraft-java");
        reveal_strlit("minecraft.windows.exe");
        reveal_strlit("minecraft-bedrock");
    }
    let lower = lower_ascii(name);
    if crate::text::bytes_eq_lit(&lower, "boplbattle.exe") {
        let mut v: Vec<u8> = Vec::new();
        append_lit(&mut v, "bopl-battle");
        Option::Some(v)
    } else if crate::text::bytes_eq_lit(&lower, "javaw.exe") {
        let mut v: Vec<u8> = Vec::new();
        append_lit(&mut v, "minecraft-java");
        Option::Some(v)
    } else if crate::text::bytes_eq_lit(&lower, "minecraft.windows.exe") {
        let mut v: Vec<u8> = Vec::new();
        append_lit(&mut v, "minecraft-bedrock");
        Option::Some(v)
    } else {
        Option::None
    }
}

/// Wire name of a backend in the handoff file.
pub open spec fn backend_name(b: Backend) -> Seq<u8> {
    match b {
        Backend::Dx11 => lit_bytes("dx11"),
        Backend::Dx12 => lit_bytes("dx12"),
        Backend::OpenGl => lit_bytes("opengl"),
    }
}

/// The backend a configured name selects: unknown names select the
/// default.
pub open spec fn backend_of_name(s: Seq<u8>) -> Backend {
    if s == lit_bytes("dx12") {
        Backend::Dx12
    } else if s == lit_bytes("opengl") {
        Backend::OpenGl
    } else {
        Backend::Dx11
    }
}

/// The handoff configuration the injector writes for one target process.
pub struct HandoffConfig {
    pub backend: Backend,
    pub dll_dir: Option<Vec<u8>>,
}

/// Encoding of a handoff file: one JSON object naming the backend and the
/// module directory.
pub open spec fn enc_handoff(b: Backend, dll_dir: Seq<u8>) -> Seq<u8> {
    lit_bytes("{\"backend\":") + enc_str(backend_name(b)) + lit_bytes(",\"dll_dir\":") + enc_str(
        dll_dir,
    ) + lit_bytes("}")
}

/// Parse of a handoff file: the backend name and directory, if the object
/// is well-formed.
pub open spec fn p_handoff(s: Seq<u8>) -> Option<(Seq<u8>, Seq<u8>)> {
    match p_lit(s, 0, lit_bytes("{\"backend\":")) {
        Option::Some(i1) => match p_str(s, i1) {
            Option::Some((b, i2)) => match p_lit(s, i2, lit_bytes(",\"dll_dir\":")) {
                Option::Some(i3) => match p_str(s, i3) {
                    Option::Some((d, i4)) => match p_lit(s, i4, lit_bytes("}")) {
                        Option::Some(i5) => {
                            if i5 == s.len() {
                                Option::Some((b, d))
                            } else {
                                Option::None
                            }
                        },
                        Option::None => Option::None,
                    },
                    Option::None => Option::None,
                },
                Option::None => Option::None,
            },
            Option::None => Option::None,
        },
        Option::None => Option::None,
    }
}

/// Writes the handoff file body for one target process.
pub fn encode_handoff(c: &HandoffConfig) -> (r: Vec<u8>)
    requires
        match crate::config::opt_view(c.dll_dir) {
            Option::Some(d) => wire_safe(d),
            Option::None => true,
        },
    ensures
        r@ == enc_handoff(
            c.backend,
            match crate::config::opt_view(c.dll_dir) {
                Option::Some(d) => d,
                Option::None => lit_bytes("."),
            },
        ),
{
    proof {
        reveal_strlit("{\"backend\":");
        reveal_strlit(",\"dll_dir\":");
        reveal_strlit("}");
        reveal_strlit("dx11");
        reveal_strlit("dx12");
        reveal_strlit("opengl");
        reveal_strlit(".");
    }
    let mut out: Vec<u8> = Vec::new();
    append_lit(&mut out, "{\"backend\":");
    let mut bname: Vec<u8> = Vec::new();
    match c.backend {
        Backend::Dx11 => append_lit(&mut bname, "dx11"),
        Backend::Dx12 => append_lit(&mut bname, "dx12"),
        Backend::OpenGl => append_lit(&mut bname, "opengl"),
    }
    encode_str(&mut out, &bname);
    append_lit(&mut out, ",\"dll_dir\":");
    match &c.dll_dir {
        Option::Some(d) => encode_str(&mut out, d),
        Option::None => {
            let mut dot: Vec<u8> = Vec::new();
            append_lit(&mut dot, ".");
            encode_str(&mut out, &dot);
        },
    }
    append_lit(&mut out, "}");
    proof {
        assert(out@ =~= enc_handoff(
            c.backend,
            match crate::config::opt_view(c.dll_dir) {
                Option::Some(d) => d,
                Option::None => lit_bytes("."),
            },
        ));
    }
    out
}

/// Reads a handoff file body. A missing or malformed file yields the
/// defaults: the default backend and no module directory.
pub fn parse_handoff(s: &Vec<u8>) -> (r: HandoffConfig)
    ensures
        match p_handoff(s@) {
            Option::Some((b, d)) => r.backend == backend_of_name(b) && crate::config::opt_view(
                r.dll_dir,
            ) == Option::Some(d),
            Option::None => r.backend == Backend::Dx11 && r.dll_dir is None,
        },
{
    proof {
        reveal_strlit("{\"backend\":");
        reveal_strlit(",\"dll_dir\":");
        reveal_strlit("}");
        reveal_strlit("dx12");
        reveal_strlit("opengl");
        assert(s@.len() == s.len());
    }
    let fallback = HandoffConfig { backend: Backend::Dx11, dll_dir: Option::None };
    if let Option::Some(i1) = expect_lit(s, 0, "{\"backend\":") {
        if let Option::Some((bname, i2)) = crate::codec::parse_str(s, i1) {
            proof {
                crate::codec::lemma_str_end_bounds(s@, i1 as int + 1);
            }
            if let Option::Some(i3) = expect_lit(s, i2, ",\"dll_dir\":") {
                if let Option::Some((dir, i4)) = crate::codec::parse_str(s, i3) {
                    proof {
                        crate::codec::lemma_str_end_bounds(s@, i3 as int + 1);
                    }
                    if let Option::Some(i5) = expect_lit(s, i4, "}") {
                        if i5 == s.len() {
                            let backend = if crate::text::bytes_eq_lit(&bname, "dx12") {
                                Backend::Dx12
                            } else if crate::text::bytes_eq_lit(&bname, "opengl") {
                                Backend::OpenGl
                            } else {
                                Backend::Dx11
                            };
                            return HandoffConfig { backend, dll_dir: Option::Some(dir) };
                        }
                    }
                }
            }
        }
        return fallback;
    }
    fallback
}

/// Law: a handoff round-trips — reading back a written handoff file gives
/// the same backend and directory.
pub proof fn lemma_handoff_round_trip(b: Backend, dll_dir: Seq<u8>)
    requires
        wire_safe(dll_dir),
    ensures
        p_handoff(enc_handoff(b, dll_dir)) == Option::Some((backend_name(b), dll_dir)),
        backend_of_name(backend_name(b)) == b,
{
    reveal_strlit("{\"backend\":");
    reveal_strlit(",\"dll_dir\":");
    reveal_strlit("}");
    reveal_strlit("dx11");
    reveal_strlit("dx12");
    reveal_strlit("opengl");
    let s = enc_handoff(b, dll_dir);
    let a0 = lit_bytes("{\"backend\":");
    let a1 = enc_str(backend_name(b));
    let a2 = lit_bytes(",\"dll_dir\":");
    let a3 = enc_str(dll_dir);
    let a4 = lit_bytes("}");
    assert(match_at(s, 0, s)) by {
        assert(s.subrange(0, s.len() as int) =~= s);
    }
    lemma_match_concat(s, 0, a0 + a1 + a2 + a3, a4);
    lemma_match_concat(s, 0, a0 + a1 + a2, a3);
    lemma_match_concat(s, 0, a0 + a1, a2);
    lemma_match_concat(s, 0, a0, a1);
    assert(wire_safe(backend_name(b)));
    lemma_parse_enc_str(s, a0.len() as int, backend_name(b));
    lemma_parse_enc_str(s, (a0.len() + a1.len() + a2.len()) as int, dll_dir);
    match b {
        Backend::Dx11 => {
            assert(lit_bytes("dx11") != lit_bytes("dx12")) by {
                assert(lit_bytes("dx11")[3] != lit_bytes("dx12")[3]);
            }
            assert(lit_bytes("dx11") != lit_bytes("opengl")) by {
                assert(lit_bytes("dx11").len() != lit_bytes("opengl").len());
            }
        },
        Backend::Dx12 => {},
        Backend::OpenGl => {
            assert(lit_bytes("opengl") != lit_bytes("dx12")) by {
                assert(lit_bytes("opengl").len() != lit_bytes("dx12").len());
            }
        },
    }
}

/// File name of the handoff configuration for one process id.
pub fn handoff_file_name(pid: u32) -> (r: Vec<u8>)
    ensures
        r@ == lit_bytes("nuxion_overlay_config_") + enc_u64(pid as nat) + lit_bytes(".json"),
{
    proof {
        reveal_strlit("nuxion_overlay_config_");
        reveal_strlit(".json");
    }
    let mut out: Vec<u8> = Vec::new();
    append_lit(&mut out, "nuxion_overlay_config_");
    encode_u64(&mut out, pid as u64);
    append_lit(&mut out, ".json");
    out
}

/// Name of the per-process control channel, derived from the process id
/// and used identically by the host and the injected module.
pub fn channel_name(pid: u32) -> (r: Vec<u8>)
    ensures
        r@ == lit_bytes("\\\\.\\pipe\\nuxion-overlay-") + enc_u64(pid as nat),
{
    proof {
        reveal_strlit("\\\\.\\pipe\\nuxion-overlay-");
    }
    let mut out: Vec<u8> = Vec::new();
    append_lit(&mut out, "\\\\.\\pipe\\nuxion-overlay-");
    encode_u64(&mut out, pid as u64);
    out
}

/// View of one tracked game process.
pub struct GameView {
    pub id: Seq<u8>,
    pub name: Seq<u8>,
    pub pid: u32,
}

/// One tracked game process.
pub struct Game {
    pub id: Vec<u8>,
    pub name: Vec<u8>,
    pub pid: u32,
}

impl View for Game {
    type V = GameView;

    open spec fn view(&self) -> GameView {
        GameView { id: self.id@, name: self.name@, pid: self.pid }
    }
}

/// The host's registry of processes already injected, each process id at
/// most once.
pub struct GameRegistry {
    pub games: Vec<Game>,
}

impl View for GameRegistry {
    type V = Seq<GameView>;

    open spec fn view(&self) -> Seq<GameView> {
        Seq::new(self.games@.len(), |i: int| self.games@[i]@)
    }
}

/// No process id is tracked twice.
pub open spec fn games_wf(r: Seq<GameView>) -> bool {
    forall|i: int, j: int| 0 <= i < j < r.len() ==> r[i].pid != r[j].pid
}

/// The games whose process is still alive.
pub open spec fn spec_retain_alive(s: Seq<GameView>, alive: Seq<u32>) -> Seq<GameView>
    decreases s.len(),
{
    if s.len() == 0 {
        Seq::empty()
    } else {
        spec_retain_alive(s.drop_last(), alive) + if alive.contains(s.last().pid) {
            seq![s.last()]
        } else {
            Seq::empty()
        }
    }
}

impl GameRegistry {
    /// An empty registry.
    pub fn new() -> (r: Self)
        ensures
            r@ == Seq::<GameView>::empty(),
            games_wf(r@),
    {
        let r = GameRegistry { games: Vec::new() };
        proof {
            assert(r@ =~= Seq::<GameView>::empty());
        }
        r
    }

    /// Whether a process id is already tracked.
    pub fn is_tracked(&self, pid: u32) -> (r: bool)
        ensures
            r == exists|i: int| 0 <= i < self@.len() && #[trigger] self@[i].pid == pid,
    {
        let mut i: usize = 0;
        while i < self.games.len()
            invariant
                0 <= i <= self.games@.len(),
                self@.len() == self.games@.len(),
                forall|j: int| 0 <= j < i ==> #[trigger] self@[j].pid != pid,
            decreases self.games@.len() - i,
        {
            if self.games[i].pid == pid {
                proof {
                    assert(self@[i as int].pid == pid);
                }
                return true;
            }
            i += 1;
        }
        false
    }

    /// Tracks a newly detected process. A process id already tracked is
    /// left alone and not re-injected; the return value says whether an
    /// injection should now be attempted.
    pub fn track(&mut self, g: Game) -> (added: bool)
        requires
            games_wf(old(self)@),
        ensures
            games_wf(final(self)@),
            added == !(exists|i: int|
                0 <= i < old(self)@.len() && #[trigger] old(self)@[i].pid == g@.pid),
            added ==> final(self)@ == old(self)@.push(g@),
            !added ==> final(self)@ == old(self)@,
    {
        if self.is_tracked(g.pid) {
            return false;
        }
        self.games.push(g);
        proof {
            assert(self@ =~= old(self)@.push(g@));
        }
        true
    }

    /// Forgets every game whose process id no longer resolves to a live
    /// process.
    pub fn retain_alive(&mut self, alive: &Vec<u32>)
        requires
            games_wf(old(self)@),
        ensures
            final(self)@ == spec_retain_alive(old(self)@, alive@),
            games_wf(final(self)@),
    {
        let ghost orig = self@;
        let mut kept: Vec<Game> = Vec::new();
        let mut i: usize = 0;
        let n = self.games.len();
        while i < n
            invariant
                n == self.games@.len(),
                orig == self@,
                orig.len() == n,
                games_wf(orig),
                0 <= i <= n,
                Seq::new(kept@.len(), |k: int| kept@[k]@) == spec_retain_alive(
                    orig.take(i as int),
                    alive@,
                ),
                forall|k: int|
                    0 <= k < kept@.len() ==> exists|j: int|
                        0 <= j < i && #[trigger] kept@[k]@ == orig[j],
            decreases n - i,
        {
            let g = &self.games[i];
            let mut hit = false;
            let mut j: usize = 0;
            while j < alive.len()
                invariant
                    0 <= j <= alive@.len(),
                    hit == exists|k: int| 0 <= k < j && alive@[k] == g.pid,
                decreases alive@.len() - j,
            {
                if alive[j] == g.pid {
                    hit = true;
                    proof {
                        assert(alive@[j as int] == g.pid);
                    }
                }
                j += 1;
            }
            proof {
                assert(hit == alive@.contains(g@.pid));
                assert(orig.take(i + 1).drop_last() =~= orig.take(i as int));
                assert(orig.take(i + 1).last() == orig[i as int]);
            }
            if hit {
                let copy = Game {
                    id: crate::config::copy_bytes(&g.id),
                    name: crate::config::copy_bytes(&g.name),
                    pid: g.pid,
                };
                proof {
                    assert(copy@ == orig[i as int]);
                }
                let ghost before = Seq::new(kept@.len(), |k: int| kept@[k]@);
                kept.push(copy);
                proof {
                    assert(Seq::new(kept@.len(), |k: int| kept@[k]@) =~= before.push(
                        orig[i as int],
                    ));
                    assert(Seq::new(kept@.len(), |k: int| kept@[k]@) =~= spec_retain_alive(
                        orig.take(i + 1),
                        alive@,
                    ));
                }
            } else {
                proof {
                    assert(Seq::new(kept@.len(), |k: int| kept@[k]@) =~= spec_retain_alive(
                        orig.take(i + 1),
                        alive@,
                    ));
                }
            }
            i += 1;
        }
        proof {
            assert(orig.take(n as int) =~= orig);
        }
        self.games = kept;
        proof {
            lemma_retain_alive_wf(orig, alive@);
        }
    }

    /// The tracked process names, in tracking order.
    pub fn names(&self) -> (r: Vec<Vec<u8>>)
        ensures
            r.deep_view() == Seq::new(self@.len(), |i: int| self@[i].name),
    {
        let mut r: Vec<Vec<u8>> = Vec::new();
        let mut i: usize = 0;
        while i < self.games.len()
            invariant
                0 <= i <= self.games@.len(),
                self@.len() == self.games@.len(),
                r@.len() == i,
                forall|k: int| 0 <= k < i ==> #[trigger] r@[k]@ == self@[k].name,
            decreases self.games@.len() - i,
        {
            let c = crate::config::copy_bytes(&self.games[i].name);
            proof {
                assert(c@ == self@[i as int].name);
            }
            r.push(c);
            i += 1;
        }
        proof {
            assert(r.deep_view() =~~= Seq::new(self@.len(), |k: int| self@[k].name));
        }
        r
    }

    /// Whether any tracked game is not in the ignored list — only then is
    /// the crosshair shown.
    pub fn any_unignored(&self, ignored: &Vec<Vec<u8>>) -> (r: bool)
        ensures
            r == exists|i: int|
                0 <= i < self@.len() && !ignored.deep_view().contains(#[trigger] self@[i].id),
    {
        let mut i: usize = 0;
        while i < self.games.len()
            invariant
                0 <= i <= self.games@.len(),
                self@.len() == self.games@.len(),
                forall|j: int|
                    0 <= j < i ==> ignored.deep_view().contains(#[trigger] self@[j].id),
            decreases self.games@.len() - i,
        {
            let g = &self.games[i];
            let mut found = false;
            let mut j: usize = 0;
            while j < ignored.len()
                invariant
                    0 <= j <= ignored@.len(),
                    found ==> exists|k: int|
                        0 <= k < ignored@.len() && ignored.deep_view()[k] == g@.id,
                    !found ==> forall|k: int| 0 <= k < j ==> ignored.deep_view()[k] != g@.id,
                decreases ignored@.len() - j,
            {
                proof {
                    assert(ignored.deep_view()[j as int] =~= ignored@[j as int]@);
                }
                if crate::text::bytes_eq(&ignored[j], &g.id) {
                    proof {
                        assert(ignored.deep_view()[j as int] == g@.id);
                    }
                    found = true;
                }
                j += 1;
            }
            if !found {
                proof {
                    assert(!ignored.deep_view().contains(self@[i as int].id));
                }
                return true;
            }
            proof {
                assert(ignored.deep_view().contains(self@[i as int].id));
            }
            i += 1;
        }
        false
    }
}

/// Retaining keeps the ids unique.
proof fn lemma_retain_alive_wf(s: Seq<GameView>, alive: Seq<u32>)
    requires
        games_wf(s),
    ensures
        games_wf(spec_retain_alive(s, alive)),
        forall|k: int|
            0 <= k < spec_retain_alive(s, alive).len() ==> s.contains(
                #[trigger] spec_retain_alive(s, alive)[k],
            ),
    decreases s.len(),
{
    if s.len() > 0 {
        assert(games_wf(s.drop_last()));
        lemma_retain_alive_wf(s.drop_last(), alive);
        let prefix = spec_retain_alive(s.drop_last(), alive);
        assert(forall|k: int| 0 <= k < prefix.len() ==> s.drop_last().contains(#[trigger] prefix[k]));
        assert forall|k: int|
            0 <= k < spec_retain_alive(s, alive).len() implies s.contains(
            #[trigger] spec_retain_alive(s, alive)[k],
        ) by {
            let r = spec_retain_alive(s, alive);
            if k < prefix.len() {
                assert(r[k] == prefix[k]);
                let w = choose|w: int| 0 <= w < s.drop_last().len() && s.drop_last()[w] == prefix[k];
                assert(s[w] == prefix[k]);
            } else {
                assert(r[k] == s.last());
                assert(s[s.len() - 1] == s.last());
            }
        }
        assert forall|a: int, b: int|
            0 <= a < b < spec_retain_alive(s, alive).len() implies spec_retain_alive(s, alive)[a].pid
            != spec_retain_alive(s, alive)[b].pid by {
            let r = spec_retain_alive(s, alive);
            if b < prefix.len() {
            } else {
                assert(r[b] == s.last());
                assert(r[a] == prefix[a]);
                let w = choose|w: int| 0 <= w < s.drop_last().len() && s.drop_last()[w] == prefix[a];
                assert(s[w] == prefix[a]);
                assert(s[w].pid != s[s.len() - 1].pid);
            }
        }
    }
}

/// What the periodic process scan tells the desktop shell after one pass.
#[derive(Clone, Copy, Debug, PartialEq, Eq, Structural)]
pub struct ScanEvents {
    pub emit_game_stop: bool,
    pub show_crosshair: Option<bool>,
    pub toggle_desktop_overlay: Option<bool>,
    pub new_last_play: bool,
}

/// The events one scan pass emits: when the last game exits, the shell is
/// told the game stopped, the crosshair hidden and the desktop overlay
/// restored; while games run, the crosshair follows the ignored list and
/// the desktop overlay is hidden once on the first game.
pub open spec fn spec_scan_events(games_empty: bool, last_play: bool, any_unignored: bool) -> ScanEvents {
    if games_empty && last_play {
        ScanEvents {
            emit_game_stop: true,
            show_crosshair: Option::Some(false),
            toggle_desktop_overlay: Option::Some(true),
            new_last_play: false,
        }
    } else if !games_empty {
        ScanEvents {
            emit_game_stop: false,
            show_crosshair: Option::Some(any_unignored),
            toggle_desktop_overlay: if !last_play {
                Option::Some(false)
            } else {
                Option::None
            },
            new_last_play: true,
        }
    } else {
        ScanEvents {
            emit_game_stop: false,
            show_crosshair: Option::None,
            toggle_desktop_overlay: Option::None,
            new_last_play: last_play,
        }
    }
}

/// Decides the events of one scan pass.
pub fn scan_events(games_empty: bool, last_play: bool, any_unignored: bool) -> (r: ScanEvents)
    ensures
        r == spec_scan_events(games_empty, last_play, any_unignored),
{
    if games_empty && last_play {
        ScanEvents {
            emit_game_stop: true,
            show_crosshair: Option::Some(false),
            toggle_desktop_overlay: Option::Some(true),
            new_last_play: false,
        }
    } else if !games_empty {
        ScanEvents {
            emit_game_stop: false,
            show_crosshair: Option::Some(any_unignored),
            toggle_desktop_overlay: if !last_play {
                Option::Some(false)
            } else {
                Option::None
            },
            new_last_play: true,
        }
    } else {
        ScanEvents {
            emit_game_stop: false,
            show_crosshair: Option::None,
            toggle_desktop_overlay: Option::None,
            new_last_play: last_play,
        }
    }
}

} // verus!
