use overlay_core::config::{Command, Notification, OverlayCrosshairData};
use overlay_core::codec::encode_command;
use overlay_core::channel::{ChannelClient, ChannelRegistry, LineBuffer, QUEUE_CAP, RETRY_DELAY_MS};
use overlay_core::state::OverlayState;
use overlay_core::Backend;
use overlay_core::injector::{
    Game, GameRegistry, HandoffConfig, channel_name, classify_backend, detect_game,
    encode_handoff, handoff_file_name, parse_handoff, scan_events,
};
use overlay_core::util::{JwtClaims, clip_audio_paths, make_buffer_from_str, string_to_array};

fn toggle_line(v: bool) -> Vec<u8> {
    let mut l = encode_command(&Command::ToggleOverlay(v));
    l.push(b'\n');
    l
}

#[test]
fn line_buffer_joins_split_reads() {
    let mut buf = LineBuffer::new();
    let line = toggle_line(true);
    let (a, b) = line.split_at(7);
    assert!(buf.feed(&a.to_vec()).is_empty());
    let lines = buf.feed(&b.to_vec());
    assert_eq!(lines.len(), 1);
    assert_eq!(lines[0], line[..line.len() - 1].to_vec());
    assert!(buf.pending.is_empty());
}

#[test]
fn line_buffer_splits_joined_reads() {
    let mut buf = LineBuffer::new();
    let mut chunk = toggle_line(true);
    chunk.extend_from_slice(&toggle_line(false));
    chunk.extend_from_slice(b"{\"Toggle");
    let lines = buf.feed(&chunk);
    assert_eq!(lines.len(), 2);
    assert_eq!(buf.pending, b"{\"Toggle".to_vec());
}

#[test]
fn client_applies_commands_across_chunk_boundaries() {
    let mut client = ChannelClient::new();
    let mut state = OverlayState::default();
    client.on_connected();
    let mut stream: Vec<u8> = Vec::new();
    stream.extend_from_slice(&toggle_line(false));
    stream.extend_from_slice(&encode_command(&Command::ShowNotification(Notification {
        id: b"1".to_vec(),
        title: b"t".to_vec(),
        message: b"m".to_vec(),
        duration: 100,
        elapsed: 0,
    })));
    stream.push(b'\n');
    // feed in awkward three-byte chunks: no command may be lost or doubled
    for chunk in stream.chunks(3) {
        client.on_bytes(&chunk.to_vec(), &mut state);
    }
    assert!(!state.enabled);
    assert_eq!(state.notifications.len(), 1);
}

#[test]
fn unparsable_lines_are_skipped() {
    let mut client = ChannelClient::new();
    let mut state = OverlayState::default();
    client.on_connected();
    let mut stream: Vec<u8> = b"this is not a command\n".to_vec();
    stream.extend_from_slice(&toggle_line(false));
    client.on_bytes(&stream, &mut state);
    assert!(!state.enabled);
}

#[test]
fn client_retries_at_the_fixed_interval() {
    let mut client = ChannelClient::new();
    assert_eq!(client.on_connect_failed(), RETRY_DELAY_MS);
    assert_eq!(client.on_connect_failed(), 1000);
    client.on_connected();
    assert!(client.connected);
    assert_eq!(client.on_disconnected(), 1000);
    assert!(!client.connected);
}

#[test]
fn registry_broadcasts_and_pops_in_order() {
    let mut reg = ChannelRegistry::new();
    reg.open_channel(7);
    reg.open_channel(9);
    reg.open_channel(7); // a second open of the same id changes nothing
    assert_eq!(reg.channels.len(), 2);
    assert!(reg.broadcast(&Command::ToggleOverlay(true)));
    assert!(reg.broadcast(&Command::ToggleOverlay(false)));
    let q = &mut reg.channels[0];
    match q.pop_front() {
        Some(Command::ToggleOverlay(v)) => assert!(v),
        _ => panic!("expected the first toggle"),
    }
    match q.pop_front() {
        Some(Command::ToggleOverlay(v)) => assert!(!v),
        _ => panic!("expected the second toggle"),
    }
    assert!(q.pop_front().is_none());
    reg.close_channel(7);
    assert!(!reg.has_channel(7));
    assert!(reg.has_channel(9));
}

#[test]
fn full_queue_drops_the_oldest() {
    let mut reg = ChannelRegistry::new();
    reg.open_channel(1);
    for i in 0..(QUEUE_CAP + 3) {
        reg.broadcast(&Command::ToggleOverlay(i % 2 == 0));
    }
    let q = &mut reg.channels[0];
    assert_eq!(q.items.len(), QUEUE_CAP);
    // the three oldest were dropped; the first remaining is entry three
    match q.pop_front() {
        Some(Command::ToggleOverlay(v)) => assert_eq!(v, 3 % 2 == 0),
        _ => panic!("expected a toggle"),
    }
}

#[test]
fn broadcast_on_empty_registry_reports_nothing_sent() {
    let mut reg = ChannelRegistry::new();
    assert!(!reg.broadcast(&Command::ToggleOverlay(true)));
}

#[test]
fn unknown_process_defaults_to_dx11() {
    assert_eq!(classify_backend(&b"notepad.exe".to_vec()), Backend::Dx11);
    assert_eq!(classify_backend(&b"".to_vec()), Backend::Dx11);
    assert_eq!(classify_backend(&b"BoplBattle.exe".to_vec()), Backend::Dx11);
}

#[test]
fn opengl_pattern_selects_opengl() {
    assert_eq!(classify_backend(&b"javaw.exe".to_vec()), Backend::OpenGl);
    assert_eq!(classify_backend(&b"JAVAW.EXE".to_vec()), Backend::OpenGl);
    assert_eq!(classify_backend(&b"minecraft_launcher.exe".to_vec()), Backend::OpenGl);
}

#[test]
fn known_engine_selects_dx12() {
    assert_eq!(classify_backend(&b"Minecraft.Windows.exe".to_vec()), Backend::Dx12);
}

#[test]
fn known_games_are_detected() {
    assert_eq!(detect_game(&b"BoplBattle.exe".to_vec()), Some(b"bopl-battle".to_vec()));
    assert_eq!(detect_game(&b"javaw.exe".to_vec()), Some(b"minecraft-java".to_vec()));
    assert_eq!(
        detect_game(&b"Minecraft.Windows.exe".to_vec()),
        Some(b"minecraft-bedrock".to_vec())
    );
    assert_eq!(detect_game(&b"explorer.exe".to_vec()), None);
}

#[test]
fn handoff_round_trips_and_defaults() {
    let written = encode_handoff(&HandoffConfig {
        backend: Backend::OpenGl,
        dll_dir: Some(b"C:/Games/overlay".to_vec()),
    });
    assert_eq!(
        String::from_utf8(written.clone()).unwrap(),
        "{\"backend\":\"opengl\",\"dll_dir\":\"C:/Games/overlay\"}"
    );
    let read = parse_handoff(&written);
    assert_eq!(read.backend, Backend::OpenGl);
    assert_eq!(read.dll_dir, Some(b"C:/Games/overlay".to_vec()));

    let broken = parse_handoff(&b"{\"backend\": oops".to_vec());
    assert_eq!(broken.backend, Backend::Dx11);
    assert_eq!(broken.dll_dir, None);

    let unknown = parse_handoff(&b"{\"backend\":\"vulkan\",\"dll_dir\":\".\"}".to_vec());
    assert_eq!(unknown.backend, Backend::Dx11);
    assert_eq!(unknown.dll_dir, Some(b".".to_vec()));
}

#[test]
fn per_process_names_carry_the_pid() {
    assert_eq!(
        String::from_utf8(handoff_file_name(4242)).unwrap(),
        "nuxion_overlay_config_4242.json"
    );
    assert_eq!(
        String::from_utf8(channel_name(4242)).unwrap(),
        "\\\\.\\pipe\\nuxion-overlay-4242"
    );
}

#[test]
fn tracked_processes_are_not_reinjected() {
    let mut reg = GameRegistry::new();
    let g = Game { id: b"bopl-battle".to_vec(), name: b"BoplBattle.exe".to_vec(), pid: 10 };
    assert!(reg.track(g));
    let again = Game { id: b"bopl-battle".to_vec(), name: b"BoplBattle.exe".to_vec(), pid: 10 };
    assert!(!reg.track(again));
    assert_eq!(reg.games.len(), 1);
    let other = Game { id: b"minecraft-java".to_vec(), name: b"javaw.exe".to_vec(), pid: 11 };
    assert!(reg.track(other));
    reg.retain_alive(&vec![11]);
    assert_eq!(reg.names(), vec![b"javaw.exe".to_vec()]);
    assert!(!reg.is_tracked(10));
    assert!(reg.is_tracked(11));
}

#[test]
fn crosshair_visibility_follows_the_ignored_list() {
    let mut reg = GameRegistry::new();
    reg.track(Game { id: b"bopl-battle".to_vec(), name: b"b".to_vec(), pid: 1 });
    let ignored = vec![b"bopl-battle".to_vec()];
    assert!(!reg.any_unignored(&ignored));
    reg.track(Game { id: b"minecraft-java".to_vec(), name: b"j".to_vec(), pid: 2 });
    assert!(reg.any_unignored(&ignored));
}

#[test]
fn scan_events_follow_the_lifecycle() {
    // last game exited: tell the shell, hide the crosshair, restore the overlay
    let e = scan_events(true, true, false);
    assert!(e.emit_game_stop);
    assert_eq!(e.show_crosshair, Some(false));
    assert_eq!(e.toggle_desktop_overlay, Some(true));
    assert!(!e.new_last_play);
    // first game appeared
    let e = scan_events(false, false, true);
    assert!(!e.emit_game_stop);
    assert_eq!(e.show_crosshair, Some(true));
    assert_eq!(e.toggle_desktop_overlay, Some(false));
    assert!(e.new_last_play);
    // idle with no games
    let e = scan_events(true, false, false);
    assert_eq!(e.show_crosshair, None);
    assert_eq!(e.toggle_desktop_overlay, None);
}

#[test]
fn fixed_buffers_truncate_and_terminate() {
    let a: [u8; 8] = string_to_array("hello");
    assert_eq!(&a, b"hello\0\0\0");
    let b: [u8; 4] = string_to_array("hello");
    assert_eq!(&b, b"hel\0");
    let c: [u8; 8] = make_buffer_from_str("hello");
    assert_eq!(&c, b"hello\0\0\0");
    let d: [u8; 4] = make_buffer_from_str("hello");
    assert_eq!(&d, b"hell");
}

#[test]
fn clip_audio_paths_replace_the_video_suffix() {
    let p = clip_audio_paths(&b"C:/clips/match.mp4".to_vec());
    assert_eq!(p.video, b"C:/clips/match_desktop.wav".to_vec());
    assert_eq!(p.audio, b"C:/clips/match_mic.wav".to_vec());
    let q = clip_audio_paths(&b"noext".to_vec());
    assert_eq!(q.video, b"noext_desktop.wav".to_vec());
}

#[test]
fn token_claims_expire_after_one_day() {
    let c = JwtClaims::new(7, b"player".to_vec(), 1_000_000);
    assert_eq!(c.user_id, 7);
    assert_eq!(c.username, b"player".to_vec());
    assert_eq!(c.exp, 1_000_000 + 86_400);
}
