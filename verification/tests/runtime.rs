use ambient_core_logic::editor::{instance_for_mode, EditorMode, InstanceChoice};
use ambient_core_logic::network::{ConnectionFailure, IoErrorKind, NetworkError};
use ambient_core_logic::attributes::{AttributeStore, Networked, Serializable, Store};
use ambient_core_logic::component_registry::ComponentRegistry;
use ambient_core_logic::network::{
    assert_networked, assert_persisted, networked_problem, persisted_problem, SyncAttributeError,
};
use ambient_core_logic::asset::{url_for_package_asset, HostUrlError, UrlError};
use ambient_core_logic::bindgen::{Duration, FromBindgen, IntoBindgen, UVec2};
use ambient_core_logic::client_proto::{
    version_mismatch_message, ClientProtoState, ConnectedClient, ProtoError, ServerInfo,
    ServerPush,
};
use ambient_core_logic::gpu::{
    backends_for, configures_surface, device_limits, features_for, reader_size, resize_applies,
    size_in_bytes_from_desc, swapchain_mode, swapchain_mode_for, Backends, Extent3d, PresentMode,
    TargetOs, WgpuBufferDimensions, WgslType,
};
use ambient_core_logic::gpu::{
    array_mip_levels, floor_log2, image_mip_levels, size_bounds, swizzle_bgra_pixels, unpad_rows,
};
use ambient_core_logic::golden::{
    golden_check_run, golden_check_step, golden_image_start, make_opaque, outcome_exit, GoldenCheckOutcome,
    GoldenImageMode, GoldenImagePlan,
};
use ambient_core_logic::prefab::{group_prefab_loads, prefab_main_url};
use ambient_core_logic::client::{client_launch, window_title_with_stats, ClientLaunch};
use ambient_core_logic::window::{run_result, ExitStatus, RunFailure};

fn info(version: &str) -> ServerInfo {
    ServerInfo {
        main_package_name: "game".to_string(),
        version: version.to_string(),
        content_base_url: "http://host/content/".to_string(),
    }
}

#[test]
fn client_connects_on_server_info() {
    let mut state = ClientProtoState::Pending("user".to_string());
    assert!(state.is_pending());
    let r = state.process_push("1.0", true, ServerPush::ServerInfo(info("1.0")));
    assert_eq!(r, Ok(Some("http://host/content/".to_string())));
    assert!(state.is_connected());
    match &state {
        ClientProtoState::Connected(ConnectedClient { main_package_name }) => {
            assert_eq!(main_package_name, "game")
        }
        _ => panic!("not connected"),
    }
    // A second server info changes nothing.
    assert_eq!(state.process_push("1.0", true, ServerPush::ServerInfo(info("2.0"))), Ok(None));
    assert!(state.is_connected());
}

#[test]
fn client_version_mismatch() {
    let mut state = ClientProtoState::Pending("user".to_string());
    let r = state.process_push("1.0", true, ServerPush::ServerInfo(info("2.0")));
    assert_eq!(
        r,
        Err(ProtoError::VersionMismatch(
            "Client version does not match server version.\n\nServer version: 2.0\nClient version: 1.0"
                .to_string()
        ))
    );
    assert!(state.is_pending());
    let r = state.process_push("1.0", false, ServerPush::ServerInfo(info("2.0")));
    assert!(r.is_ok());
    assert!(state.is_connected());
    assert_eq!(version_mismatch_message("a", "b").lines().count(), 4);
}

#[test]
fn client_disconnects_for_good() {
    let mut state = ClientProtoState::Pending("user".to_string());
    assert_eq!(state.process_push("1.0", false, ServerPush::Disconnect), Ok(None));
    assert!(!state.is_pending() && !state.is_connected());
    assert_eq!(state.process_push("1.0", false, ServerPush::ServerInfo(info("1.0"))), Ok(None));
    assert!(!state.is_connected());
    let mut c = ClientProtoState::Pending("u".to_string());
    c.process_disconnect();
    assert!(matches!(c, ClientProtoState::Disconnected));
}

#[test]
fn gpu_choices() {
    assert_eq!(backends_for(TargetOs::Windows), Backends::Vulkan);
    assert_eq!(backends_for(TargetOs::Other), Backends::All);
    assert!(features_for(TargetOs::Web).indirect_first_instance);
    assert!(features_for(TargetOs::Other).multi_draw_indirect_count);
    assert!(!features_for(TargetOs::MacOs).multi_draw_indirect);
    assert_eq!(device_limits(1 << 27).max_bind_groups, 8);
    assert_eq!(swapchain_mode_for(true, true), Some(PresentMode::AutoVsync));
    assert_eq!(swapchain_mode_for(false, true), None);
    assert_eq!(swapchain_mode(None), PresentMode::Immediate);
    assert!(configures_surface(true, true, true, true));
    assert!(!configures_surface(true, false, true, true));
    assert!(!resize_applies(true, 0, 10));
    assert!(resize_applies(true, 1, 10));
    assert_eq!(<u32 as WgslType>::wgsl_type(), "u32");
    assert_eq!(<UVec2 as WgslType>::wgsl_type(), "vec2<u32>");
}

#[test]
fn texture_sizes() {
    assert_eq!(size_in_bytes_from_desc(4, 4, 1, 4, 1), 64);
    assert_eq!(size_in_bytes_from_desc(4, 4, 1, 4, 3), 64 + 32 + 16);
    assert_eq!(size_in_bytes_from_desc(4, 4, 1, 4, 0), 64);
    assert_eq!(size_in_bytes_from_desc(1, 1, 1, 1, 4), 1);
    let d = WgpuBufferDimensions::new(Extent3d { width: 10, height: 3, depth_or_array_layers: 2 }, 4);
    assert_eq!(d.unpadded_bytes_per_row, 40);
    assert_eq!(d.padded_bytes_per_row, 256);
    assert_eq!(d.padded_size, 256 * 6);
    let e = WgpuBufferDimensions::new(Extent3d { width: 64, height: 1, depth_or_array_layers: 1 }, 4);
    assert_eq!(e.padded_bytes_per_row, 256);
    let r = reader_size(Extent3d { width: 5, height: 6, depth_or_array_layers: 2 }, 4);
    assert_eq!((r.width, r.height, r.depth_or_array_layers), (20, 24, 2));
}

#[test]
fn duration_round_trip() {
    let d = Duration::new(3, 2_500_000_000);
    assert_eq!((d.as_secs(), d.subsec_nanos()), (5, 500_000_000));
    let w = d.into_bindgen();
    let back = w.from_bindgen();
    assert_eq!(back, d);
    let v = UVec2::new(1, 2).into_bindgen();
    assert_eq!(v.from_bindgen(), UVec2::new(1, 2));
}

#[test]
fn asset_urls_and_exit_status() {
    assert_eq!(url_for_package_asset(Ok("http://x/a".to_string())), Ok("http://x/a".to_string()));
    assert_eq!(
        url_for_package_asset(Err(HostUrlError::InvalidUrl("bad".to_string()))),
        Err(UrlError::InvalidUrl("bad".to_string()))
    );
    assert_eq!(ExitStatus::success().exit_code(), 0);
    assert_eq!(ExitStatus::failure().exit_code(), 1);
}

#[test]
fn network_error_classification() {
    assert!(NetworkError::ConnectionClosed.is_closed());
    assert!(NetworkError::ConnectionError(ConnectionFailure::ConnectionClosed { error_code: 0 }).is_closed());
    assert!(!NetworkError::ConnectionError(ConnectionFailure::ConnectionClosed { error_code: 3 }).is_closed());
    assert!(!NetworkError::ConnectionError(ConnectionFailure::Other).is_closed());
    assert!(NetworkError::IOError(IoErrorKind::ConnectionReset).is_closed());
    assert!(!NetworkError::IOError(IoErrorKind::Other).is_closed());
    assert!(!NetworkError::EndOfStream.is_closed());
    assert!(NetworkError::EndOfStream.is_end_of_stream());
    assert!(!NetworkError::FrameTooLarge.is_end_of_stream());
}

#[test]
fn sync_attribute_checks() {
    let mut reg: ComponentRegistry<u8> = ComponentRegistry::new();
    let plain = reg.register_static("core::plain", None);
    let mut net = AttributeStore::new();
    net.set(Networked);
    let only_net = reg.register("core::net".to_string(), None, Some(net));
    let mut synced = AttributeStore::new();
    synced.set(Networked);
    synced.set(Serializable);
    let sync = reg.register("core::sync".to_string(), None, Some(synced));
    let mut stored = AttributeStore::new();
    stored.set(Networked);
    stored.set(Serializable);
    stored.set(Store);
    let persisted = reg.register("core::stored".to_string(), None, Some(stored));
    assert_eq!(networked_problem(&reg, plain), Some(SyncAttributeError::NotNetworked(plain)));
    assert_eq!(networked_problem(&reg, only_net), Some(SyncAttributeError::NotSerializable(only_net)));
    assert_eq!(networked_problem(&reg, sync), None);
    assert_eq!(persisted_problem(&reg, sync), Some(SyncAttributeError::NotStore(sync)));
    assert_eq!(persisted_problem(&reg, persisted), None);
    assert_networked(&reg, sync);
    assert_persisted(&reg, persisted);
}

#[test]
fn mip_levels_follow_the_larger_side() {
    assert_eq!(floor_log2(1), 0);
    assert_eq!(floor_log2(2), 1);
    assert_eq!(floor_log2(255), 7);
    assert_eq!(floor_log2(256), 8);
    assert_eq!(floor_log2(u32::MAX), 31);
    assert_eq!(image_mip_levels(512, 100), 9);
    assert_eq!(image_mip_levels(1, 1), 1);
    assert_eq!(array_mip_levels(1, 1), 0);
    assert_eq!(array_mip_levels(100, 1024), 10);
}

#[test]
fn size_bounds_side_by_side() {
    assert_eq!(size_bounds(&[]), ((0, 0), (0, 0)));
    assert_eq!(size_bounds(&[(4, 9), (8, 2), (6, 6)]), ((4, 2), (8, 9)));
}

#[test]
fn readback_rows_lose_their_padding() {
    let padded = vec![1u8, 2, 3, 0, 0, 4, 5, 6, 0, 0, 7, 8, 9, 0, 0];
    assert_eq!(unpad_rows(&padded, 5, 3, 3), vec![1, 2, 3, 4, 5, 6, 7, 8, 9]);
    assert_eq!(unpad_rows(&padded, 5, 3, 1), vec![1, 2, 3]);
    assert_eq!(unpad_rows(&padded, 5, 0, 3), Vec::<u8>::new());
    let dims = WgpuBufferDimensions::new(Extent3d { width: 3, height: 2, depth_or_array_layers: 1 }, 4);
    let buffer: Vec<u8> = (0..dims.padded_size).map(|i| (i % 256) as u8).collect();
    let rows = unpad_rows(&buffer, dims.padded_bytes_per_row, dims.unpadded_bytes_per_row, 2);
    assert_eq!(rows.len(), 24);
    assert_eq!(rows[12], 0);
}

#[test]
fn bgra_pixels_are_reordered_as_the_reader_does() {
    let mut data = vec![1u8, 2, 3, 4, 5, 6, 7, 8, 9];
    swizzle_bgra_pixels(&mut data);
    assert_eq!(data, vec![3, 1, 2, 4, 7, 5, 6, 8, 9]);
}

#[test]
fn golden_image_decisions() {
    assert_eq!(golden_image_start(GoldenImageMode::Update, false), GoldenImagePlan::RecordAfterWait);
    assert_eq!(golden_image_start(GoldenImageMode::Update, true), GoldenImagePlan::RecordAfterWait);
    assert_eq!(golden_image_start(GoldenImageMode::Check, true), GoldenImagePlan::CompareFrames);
    assert_eq!(golden_check_step(true, 0), GoldenCheckOutcome::TimedOut);
    assert_eq!(golden_check_step(false, 3), GoldenCheckOutcome::Identical);
    assert_eq!(golden_check_step(false, 4), GoldenCheckOutcome::Differ);
    assert_eq!(outcome_exit(GoldenCheckOutcome::TimedOut).map(|s| s.exit_code()), Some(1));
    assert_eq!(outcome_exit(GoldenCheckOutcome::Identical).map(|s| s.exit_code()), Some(0));
    assert_eq!(outcome_exit(GoldenCheckOutcome::Differ), None);
}

#[test]
fn frames_are_made_opaque() {
    let mut px = vec![10u8, 20, 30, 0, 40, 50, 60, 7, 1, 2];
    make_opaque(&mut px);
    assert_eq!(px, vec![10, 20, 30, 255, 40, 50, 60, 255, 1, 2]);
}

#[test]
fn prefab_urls_name_the_main_file() {
    assert_eq!(prefab_main_url("assets/tree"), "assets/tree/prefabs/main.json");
    assert_eq!(prefab_main_url("assets/tree/prefabs/main.json"), "assets/tree/prefabs/main.json");
    assert_eq!(prefab_main_url(""), "/prefabs/main.json");
}

#[test]
fn prefab_loads_are_grouped_by_file() {
    let requests = vec![
        (1u64, "a".to_string()),
        (2, "b/prefabs/main.json".to_string()),
        (3, "a/prefabs/main.json".to_string()),
        (4, "b".to_string()),
        (5, "c".to_string()),
    ];
    let loads = group_prefab_loads(&requests);
    assert_eq!(
        loads,
        vec![
            ("a/prefabs/main.json".to_string(), vec![1, 3]),
            ("b/prefabs/main.json".to_string(), vec![2, 4]),
            ("c/prefabs/main.json".to_string(), vec![5]),
        ]
    );
    assert!(group_prefab_loads::<u64>(&[]).is_empty());
}

#[test]
fn client_launch_choices() {
    let l = client_launch(false, None, Some("saved".to_string()), true, false, false, Some(10), None, Some(800), Some(600), false, true);
    assert_eq!(
        l,
        ClientLaunch {
            open_audio: true,
            user_id: Some("saved".to_string()),
            headless_size: Some(UVec2::new(600, 600)),
            show_debug: false,
            window_position: None,
            window_size: Some((800, 600)),
            fail_on_version_mismatch: false,
        }
    );
    let l = client_launch(true, Some("me".to_string()), Some("saved".to_string()), false, true, false, Some(1), Some(2), None, Some(3), true, true);
    assert!(!l.open_audio);
    assert_eq!(l.user_id, Some("me".to_string()));
    assert_eq!(l.headless_size, None);
    assert!(l.show_debug);
    assert_eq!(l.window_position, Some((1, 2)));
    assert_eq!(l.window_size, None);
    assert!(l.fail_on_version_mismatch);
    assert_eq!(client_launch(false, None, None, false, false, false, None, None, None, None, false, false).user_id, None);
}

#[test]
fn window_title_shows_known_stats() {
    assert_eq!(window_title_with_stats("Ambient", None, None), "Ambient");
    assert_eq!(window_title_with_stats("Ambient", Some("60 fps"), None), "Ambient [60 fps]");
    assert_eq!(window_title_with_stats("Ambient", None, Some("rtt 5ms")), "Ambient [rtt 5ms]");
    assert_eq!(window_title_with_stats("Ambient", Some("60 fps"), Some("rtt 5ms")), "Ambient [60 fps, rtt 5ms]");
}

#[test]
fn golden_check_ends_at_first_deciding_frame() {
    assert_eq!(golden_check_run(&[(false, 9), (false, 2), (true, 0)]), Some((1, GoldenCheckOutcome::Identical)));
    assert_eq!(golden_check_run(&[(false, 9), (true, 1), (false, 0)]), Some((1, GoldenCheckOutcome::TimedOut)));
    assert_eq!(golden_check_run(&[(false, 9), (false, 4)]), None);
    assert_eq!(golden_check_run(&[]), None);
}

#[test]
fn editor_mode_picks_the_instance() {
    assert_eq!(instance_for_mode(EditorMode::Experience), InstanceChoice::ForkAndJoinPlay);
    assert_eq!(instance_for_mode(EditorMode::Build), InstanceChoice::JoinMain);
    assert_eq!(instance_for_mode(EditorMode::Terrain), InstanceChoice::JoinMain);
}

#[test]
fn exit_status_decides_the_run() {
    assert_eq!(run_result(ExitStatus::success()), Ok(()));
    assert_eq!(run_result(ExitStatus::failure()), Err(RunFailure::FailureStatus));
}
