//! Sources of frames and encoders on the GPU.

use vtcast::capture::{
    adapter_name, format_name, frame_bytes, list_senders, no_adapter_text, read_sender_info,
    staging_safe_format, swap_red_blue, utf16_name, ColorOrder, FrameCapture, GrabError, SenderInfo,
    SpoutReceiver, SENDER_INFO_LEN, SENDER_NAME_LEN, SENDER_SLOTS,
};
use vtcast::config::{list_spout_senders, SourceError, SourceKind};
use vtcast::dda::{list_capture_displays, DdaCapture};
use vtcast::gpu::{
    after_frame, after_step, converts_ahead, fallback_reason, gpu_encoder, gpu_encoder_of, gpu_viable,
    tries_gpu, FrameOutcome, GpuEncoder, InitOutcome, InitProgress, InitStep, LoopNext,
};
use vtcast::gpu_convert::{plane_sizes, snapshot_formats, Ring, RING};
use vtcast::mf_encoder::{
    adapter_hint, adapter_hint_for, bitrate_bps, cpu_candidate, enumerate_h264_encoders,
    frame_duration_hns, gpu_candidate, input_buffer_size, must_wait, no_encoder_text, packed_pair,
    pick_adapter_for_vendor, pick_encoder, takes_frame, unit_of, AsyncMfEncoder, MfEvent, MfStep, Vendor,
};
use vtcast::nvenc::{
    codec_h264, driver_supports, encode_settings, encode_status, extended_struct_version, preset_p4,
    profile_high, struct_version, EncodeStatus, NvencSession,
};
use vtcast::pipeline::Tally;
use vtcast::wgc::{
    await_first_frame, client_crop, effective_crop, find_window, first_frame_timeout_text,
    list_capture_windows, repack_rows, retry_with_default_border, window_refusal, Crop, Edges,
    FirstFrame, OpenStep, WgcCapture, WindowFacts, WindowOpening,
};

fn strings(items: &[&str]) -> Vec<String> {
    items.iter().map(|s| s.to_string()).collect()
}

fn registry(names: &[&[u8]]) -> Vec<u8> {
    let mut bytes = vec![0u8; SENDER_SLOTS * SENDER_NAME_LEN];
    for (i, name) in names.iter().enumerate() {
        bytes[i * SENDER_NAME_LEN..i * SENDER_NAME_LEN + name.len()].copy_from_slice(name);
    }
    bytes
}

fn info(width: u32, height: u32, format: u32) -> SenderInfo {
    SenderInfo { name: "s".to_string(), width, height, format, share_handle: 1 }
}

#[test]
fn sender_names_are_read() {
    let full = vec![b'x'; SENDER_NAME_LEN];
    let bytes = registry(&[b"Warudo", b"", "아바타".as_bytes(), &[0xff, 0xfe], &full, b"Last"]);
    assert_eq!(list_senders(&bytes), strings(&["Warudo", "아바타", "Last"]));
    assert_eq!(list_spout_senders(Some(&bytes)).unwrap().len(), 3);
    assert_eq!(list_spout_senders(None).unwrap_err(), SourceError::NoRegistry);
}

#[test]
fn sender_infos_are_read() {
    let mut bytes = vec![0u8; SENDER_INFO_LEN];
    bytes[0..4].copy_from_slice(&0xdead_beefu32.to_le_bytes());
    bytes[4..8].copy_from_slice(&1920u32.to_le_bytes());
    bytes[8..12].copy_from_slice(&1080u32.to_le_bytes());
    bytes[12..16].copy_from_slice(&87u32.to_le_bytes());
    let info = read_sender_info("n", &bytes).unwrap();
    assert_eq!((info.share_handle, info.width, info.height, info.format), (0xdead_beef, 1920, 1080, 87));
    assert_eq!(info.name, "n");
    assert!(read_sender_info("n", &bytes[1..]).is_none());
}

#[test]
fn formats() {
    assert_eq!(format_name(28), "R8G8B8A8_UNORM");
    assert_eq!(format_name(29), "R8G8B8A8_UNORM_SRGB");
    assert_eq!(format_name(87), "B8G8R8A8_UNORM");
    assert_eq!(format_name(91), "B8G8R8A8_UNORM_SRGB");
    assert_eq!(format_name(0), "UNKNOWN");
    assert_eq!(format_name(10), "R16G16B16A16_FLOAT");
    assert_eq!(format_name(24), "R10G10B10A2_UNORM");
    assert_eq!(format_name(1234), "(other)");
    assert_eq!(staging_safe_format(0), 87);
    assert_eq!(staging_safe_format(90), 87);
    assert_eq!(staging_safe_format(27), 28);
    assert_eq!(staging_safe_format(10), 10);
}

#[test]
fn textures_know_better_than_senders() {
    let mut i = info(1, 1, 0);
    i.resolve(1920, 1080, 90);
    assert_eq!((i.width, i.height, i.format), (1920, 1080, 87));
    i.resolve(0, 5, 28);
    assert_eq!((i.width, i.height, i.format), (1920, 1080, 28));
}

#[test]
fn failures_name_the_handle() {
    assert_eq!(
        no_adapter_text(0xab, "n", false),
        "no adapter could open shared handle 0x000000ab for sender 'n'"
    );
    assert_eq!(
        no_adapter_text(0xdeadbeef, "n", true),
        "no shared-capable adapter could open handle 0xdeadbeef for sender 'n'"
    );
}

#[test]
fn spout_rows_are_tightened_and_swapped() {
    let mapped = vec![1, 2, 3, 4, 99, 99, 5, 6, 7, 8, 99];
    let mut rgba = SpoutReceiver::new(info(1, 2, 28), "gpu".to_string());
    rgba.read_back(mapped.clone(), 6);
    assert_eq!(rgba.grab(), vec![1, 2, 3, 4, 5, 6, 7, 8]);
    let mut bgra = SpoutReceiver::new(info(1, 2, 87), "gpu".to_string());
    bgra.read_back(mapped, 6);
    let mut out = vec![0u8; 8];
    assert_eq!(bgra.grab_into(&mut out), Ok(()));
    assert_eq!(out, vec![3, 2, 1, 4, 7, 6, 5, 8]);
    assert_eq!(bgra.grab_into(&mut out[..7]), Err(GrabError { got: 7, need: 8 }));
    assert_eq!(bgra.dimensions(), (1, 2));
    assert_eq!((bgra.sender_name(), bgra.source_name(), bgra.adapter_name()), ("s", "s", "gpu"));
    assert_eq!((bgra.format(), bgra.frame_bytes()), (87, 8));
    assert!(bgra.has_alpha());
    assert_eq!(bgra.color_order(), ColorOrder::Rgba);
}

#[test]
fn swapping_twice_changes_nothing() {
    let before: Vec<u8> = (0..40).collect();
    let mut frame = before.clone();
    swap_red_blue(&mut frame);
    assert_eq!(&frame[..4], &[2, 1, 0, 3]);
    swap_red_blue(&mut frame);
    assert_eq!(frame, before);
}

#[test]
fn desktops_are_fitted() {
    let mut display = DdaCapture::new(Some("Monitor".to_string()), 3, 2);
    assert_eq!(display.dimensions(), (2, 2));
    assert_eq!(display.source_name(), "Monitor");
    assert!(!display.has_alpha());
    let mut out = vec![7u8; 16];
    assert_eq!(display.grab_into(&mut out), Ok(()));
    assert_eq!(out, [0u8, 0, 0, 255].repeat(4));
    // Rows of three pixels are cut to two.
    display.acquire(Some((0..24).collect()));
    assert_eq!(display.grab_into(&mut out), Ok(()));
    assert_eq!(out, vec![2, 1, 0, 3, 6, 5, 4, 7, 14, 13, 12, 15, 18, 17, 16, 19]);
    // Rows of one pixel are filled up.
    display.acquire(Some((0..8).collect()));
    assert_eq!(display.grab_into(&mut out), Ok(()));
    assert_eq!(out, vec![2, 1, 0, 3, 0, 0, 0, 0, 6, 5, 4, 7, 0, 0, 0, 0]);
    assert_eq!(display.grab_into(&mut out[..4]), Err(GrabError { got: 4, need: 16 }));
    assert_eq!(DdaCapture::new(None, 2, 2).source_name(), "Display");
}

#[test]
fn displays_are_listed() {
    let found = vec![(Some(1), Some("A".to_string())), (Some(2), None), (None, None)];
    let list = list_capture_displays(Some(found)).unwrap();
    assert_eq!(list[0], (1, "A".to_string()));
    assert_eq!(list[1], (2, "Display 2".to_string()));
    assert_eq!(list[2], (usize::MAX, format!("Display {}", usize::MAX)));
    assert_eq!(list_capture_displays(None).unwrap_err(), SourceError::DisplayCaptureUnsupported);
}

#[test]
fn windows_are_listed() {
    let found = vec![Some("Chrome".to_string()), None, Some("  ".to_string()), Some("OBS".to_string())];
    assert_eq!(list_capture_windows(Some(found)).unwrap(), strings(&["Chrome", "OBS"]));
    assert_eq!(list_capture_windows(None).unwrap_err(), SourceError::WindowCaptureUnsupported);
}

#[test]
fn windows_are_found_whatever_the_case() {
    let titles = strings(&["", "VTube Studio", "vtube studio beta"]);
    assert_eq!(find_window(&titles, "TUBE"), Some(1));
    assert_eq!(find_window(&titles, "Beta"), Some(2));
    assert_eq!(find_window(&titles, "nothing"), None);
    assert_eq!(find_window(&titles, ""), Some(1));
}

#[test]
fn client_areas() {
    let window = Edges { left: 100, top: 50, right: 900, bottom: 650 };
    let client = Edges { left: 0, top: 0, right: 784, bottom: 561 };
    let crop = client_crop(window, client, (108, 81));
    assert_eq!(crop, Some(Crop { x: 8, y: 31, width: 784, height: 561 }));
    assert_eq!(effective_crop(crop, 800, 600), Crop { x: 8, y: 30, width: 784, height: 560 });
    // A window that shrank.
    assert_eq!(effective_crop(crop, 100, 20), Crop { x: 8, y: 20, width: 92, height: 0 });
    assert_eq!(effective_crop(None, 801, 601), Crop { x: 0, y: 0, width: 800, height: 600 });
    let empty = Edges { left: 5, top: 0, right: 5, bottom: 9 };
    assert_eq!(client_crop(window, empty, (0, 0)), None);
    let far = Edges { left: i32::MIN, top: i32::MIN, right: 0, bottom: 0 };
    let huge = client_crop(far, Edges { left: i32::MIN, top: i32::MIN, right: i32::MAX, bottom: i32::MAX }, (i32::MAX, 0));
    assert_eq!(huge, Some(Crop { x: u32::MAX, y: 1 << 31, width: u32::MAX, height: u32::MAX }));
}

#[test]
fn window_frames_are_cropped() {
    let crop = Crop { x: 1, y: 1, width: 2, height: 2 };
    let mut window = WgcCapture::new("w".to_string(), crop);
    let mut out = vec![9u8; 16];
    assert_eq!(window.grab_into(&mut out), Ok(()));
    assert_eq!(out, [0u8, 0, 0, 255].repeat(4));
    // 3 by 3 pixels, numbered by their bytes.
    window.arrive((0..36).collect(), 3, 3);
    assert_eq!(window.grab_into(&mut out), Ok(()));
    let mut want: Vec<u8> = (16..24).collect();
    want.extend(28..36);
    assert_eq!(out, want);
    // Only two rows arrived.
    window.arrive((0..20).collect(), 3, 2);
    assert_eq!(window.grab_into(&mut out), Ok(()));
    assert_eq!(out, vec![16, 17, 18, 19, 0, 0, 0, 0, 0, 0, 0, 0, 0, 0, 0, 0]);
    assert_eq!(window.grab_into(&mut out[..3]), Err(GrabError { got: 3, need: 16 }));
    assert_eq!(window.dimensions(), (2, 2));
    assert_eq!(window.source_name(), "w");
    assert!(!window.has_alpha());
}

#[test]
fn padded_rows_are_repacked() {
    assert_eq!(repack_rows(vec![1, 2, 3, 4, 5, 6, 7, 8], 1, 2), vec![1, 2, 3, 4, 5, 6, 7, 8]);
    assert_eq!(repack_rows(vec![1, 2, 3, 4, 0, 5, 6, 7, 8, 0], 1, 2), vec![1, 2, 3, 4, 5, 6, 7, 8]);
    assert_eq!(frame_bytes(3, 5), 60);
}

#[test]
fn windows_that_cannot_be_captured() {
    assert_eq!(window_refusal("w", false, true), None);
    assert_eq!(
        window_refusal("w", true, false).unwrap(),
        "'w' is minimized — restore the window and try again"
    );
    assert_eq!(
        window_refusal("w", false, false).unwrap(),
        "'w' is hidden — bring the window to the foreground"
    );
    assert!(retry_with_default_border("BorderConfigUnsupported"));
    assert!(!retry_with_default_border("AccessDenied"));
}

#[test]
fn first_frames_are_awaited() {
    assert_eq!(await_first_frame(None, 0), FirstFrame::Wait(20));
    assert_eq!(await_first_frame(Some((0, 5)), 8000), FirstFrame::Wait(20));
    assert_eq!(await_first_frame(Some((4, 5)), 9000), FirstFrame::Here(4, 5));
    assert_eq!(await_first_frame(None, 8001), FirstFrame::TimedOut);
    assert!(first_frame_timeout_text("w").starts_with("WGC did not produce a frame within 8s for 'w'. "));
}

#[test]
fn adapters_have_names() {
    let mut description = [0u16; 128];
    for (i, c) in "NVIDIA é".encode_utf16().enumerate() {
        description[i] = c;
    }
    assert_eq!(adapter_name(&description), "NVIDIA é");
    assert_eq!(adapter_name(&[0x41, 0xd800]), "A\u{fffd}");
    assert_eq!(adapter_name(&[0xd834, 0xdd1e, 0x6d]), "\u{1d11e}m");
    assert_eq!(adapter_name(&[0xdd1e, 0x69, 0xd834, 0x63]), "\u{fffd}i\u{fffd}c");
    assert_eq!(adapter_name(&[0xd834, 0xd834, 0xdd1e]), "\u{fffd}\u{1d11e}");
    assert_eq!(adapter_name(&[0xdbff, 0xdfff, 0xe000]), "\u{10ffff}\u{e000}");
    assert_eq!(adapter_name(&[]), "");
    assert_eq!(utf16_name(&[0x41, 0, 0xd83d, 0xde00]), "A\0\u{1f600}");
}

#[test]
fn encoders_are_described() {
    let names = vec![
        Some("NVIDIA H.264 Encoder MFT".to_string()),
        Some("H264 Encoder MFT".to_string()),
        None,
        Some("Intel® Quick Sync Video".to_string()),
    ];
    let list = enumerate_h264_encoders(names, 7);
    let flags: Vec<(bool, bool, u32)> = list.iter().map(|d| (d.is_hardware, d.is_sync, d.flags)).collect();
    assert_eq!(flags, vec![(true, false, 7), (false, true, 7), (false, true, 7), (true, false, 7)]);
    assert_eq!(list[2].name, "<unknown>");
}

#[test]
fn encoders_are_picked_by_name() {
    let names = strings(&["Microsoft AVC DX12 Encoder", "H264 Encoder MFT", "AMDh264Encoder"]);
    assert_eq!(pick_encoder(&names, "h264 encoder mft"), Some(1));
    assert_eq!(pick_encoder(&names, "H264"), Some(1));
    assert_eq!(pick_encoder(&names, "nvidia"), None);
    assert_eq!(no_encoder_text("x", false), "no H.264 MFT name matches 'x'");
    assert_eq!(no_encoder_text("x", true), "no async H.264 MFT name matches 'x'");
}

#[test]
fn adapters_are_picked_by_vendor() {
    let names = strings(&["Microsoft Basic Render Driver", "Intel UHD", "NVIDIA RTX", "AMD Radeon"]);
    assert_eq!(pick_adapter_for_vendor(&names, Some(Vendor::Nvidia)), Some(2));
    assert_eq!(pick_adapter_for_vendor(&names, Some(Vendor::Amd)), Some(3));
    assert_eq!(pick_adapter_for_vendor(&names, Some(Vendor::Intel)), Some(1));
    assert_eq!(pick_adapter_for_vendor(&names, None), Some(1));
    assert_eq!(pick_adapter_for_vendor(&names[..2].to_vec(), Some(Vendor::Nvidia)), Some(1));
    assert_eq!(pick_adapter_for_vendor(&names[..1].to_vec(), None), None);
    assert_eq!(adapter_hint_for("Quick Sync"), Some(Vendor::Intel));
    assert_eq!(adapter_hint("amf"), Some(Vendor::Amd));
    assert_eq!(adapter_hint("nvidia"), Some(Vendor::Nvidia));
    assert_eq!(adapter_hint("h264 encoder mft"), None);
}

#[test]
fn encoders_to_try() {
    assert_eq!(cpu_candidate(0), Some((true, "nvidia")));
    assert_eq!(cpu_candidate(1), Some((true, "quick sync")));
    assert_eq!(cpu_candidate(2), Some((true, "amf")));
    assert_eq!(cpu_candidate(3), Some((false, "microsoft avc dx12")));
    assert_eq!(cpu_candidate(4), Some((false, "h264 encoder mft")));
    assert_eq!(cpu_candidate(5), None);
    assert_eq!(gpu_candidate(0), Some("quick sync"));
    assert_eq!(gpu_candidate(1), Some("amf"));
    assert_eq!(gpu_candidate(2), Some("nvidia"));
    assert_eq!(gpu_candidate(3), None);
}

#[test]
fn numbers_of_encoders() {
    assert_eq!(frame_duration_hns(30), 333_333);
    assert_eq!(packed_pair(1920, 1080), 1920u64 << 32 | 1080);
    assert_eq!(bitrate_bps(8000), 8_000_000);
    assert_eq!(input_buffer_size(10, 4, 4), 24);
    assert_eq!(input_buffer_size(100, 4, 4), 100);
    assert_eq!(unit_of(Vec::new()), None);
    assert_eq!(unit_of(vec![1]), Some(vec![1]));
    assert!(takes_frame(3) && !takes_frame(4));
    assert!(must_wait(0, false) && !must_wait(1, false) && !must_wait(0, true));
}

#[test]
fn encoder_events_are_answered() {
    let mut state = AsyncMfEncoder::new(30);
    assert_eq!(state.next(1), MfStep::Done);
    state.begin(4);
    assert_eq!(state.next(0), MfStep::Poll);
    assert_eq!(state.on_event(MfEvent::NeedInput, 0), MfStep::Proceed);
    assert!(state.has_pending_requests());
    assert_eq!(state.next(2), MfStep::Submit);
    assert!(!state.has_pending_requests());
    assert_eq!(state.stamp(), 0);
    assert_eq!(state.next(1), MfStep::Poll);
    assert_eq!(state.on_event(MfEvent::NeedInput, 1), MfStep::Submit);
    assert_eq!(state.stamp(), 333_333);
    assert_eq!(state.stamp(), 666_666);
    assert_eq!(state.on_event(MfEvent::HaveOutput, 0), MfStep::Drain);
    assert_eq!(state.on_event(MfEvent::Other, 0), MfStep::Proceed);
    assert_eq!(state.on_event(MfEvent::Idle, 0), MfStep::Done);
    assert_eq!(state.on_event(MfEvent::Failed, 0), MfStep::Fail);
    assert!(state.keeps_draining(99) && !state.keeps_draining(100));
    assert_eq!(state.on_event(MfEvent::DrainComplete, 0), MfStep::Proceed);
    assert!(!state.keeps_draining(0));
    assert_eq!(state.next(0), MfStep::Poll);
    assert_eq!(state.next(0), MfStep::Poll);
    assert_eq!(state.next(0), MfStep::Done);
}

#[test]
fn nvenc_versions() {
    assert_eq!(struct_version(1), 0x7001_000d);
    assert_eq!(extended_struct_version(9), 0xf009_000d);
    assert_eq!(struct_version(0xffff), 0xffff_000d);
    assert_eq!(struct_version(0x1_0001), 0x7001_000d);
    assert_eq!(extended_struct_version(0x1_0000), 0xf000_000d);
    assert!(driver_supports(208) && !driver_supports(207));
    assert_eq!(codec_h264().data1, 0x6bc82762);
    assert_eq!(profile_high().data4[7], 0x10);
    assert_eq!(preset_p4().data2, 0xdf06);
}

#[test]
fn nvenc_settings() {
    let s = encode_settings(4096, 1144, 30, 8000, 0x1);
    assert_eq!((s.gop_length, s.idr_period), (60, 60));
    assert_eq!((s.average_bit_rate, s.max_bit_rate, s.vbv_buffer_size), (8_000_000, 8_000_000, 8_000_000));
    assert_eq!(s.h264_flags, 0x1041);
    assert_eq!((s.frame_interval_p, s.rate_control_mode, s.chroma_format_idc), (1, 2, 1));
}

#[test]
fn nvenc_sessions_keep_books() {
    let mut session = NvencSession::new();
    session.initialized(640, 480);
    assert_eq!(session.registered_for(9), None);
    session.register(9, 77);
    assert_eq!(session.registered_for(9), Some(77));
    let first = session.next_picture(false);
    assert_eq!((first.timestamp, first.duration, first.flags), (0, 1, 0));
    assert_eq!((first.width, first.height, first.pitch), (640, 480, 640));
    let second = session.next_picture(true);
    assert_eq!((second.timestamp, second.flags), (1, 6));
    assert_eq!(encode_status(0), EncodeStatus::Unit);
    assert_eq!(encode_status(15), EncodeStatus::Buffered);
    assert_eq!(encode_status(8), EncodeStatus::Failed);
}

#[test]
fn textures_are_copied_within_their_family() {
    assert_eq!(snapshot_formats(87), (90, 87));
    assert_eq!(snapshot_formats(91), (90, 87));
    assert_eq!(snapshot_formats(29), (27, 28));
    assert_eq!(snapshot_formats(24), (23, 24));
    assert_eq!(snapshot_formats(10), (9, 10));
    assert_eq!(snapshot_formats(11), (9, 11));
    assert_eq!(snapshot_formats(2), (1, 2));
    assert_eq!(snapshot_formats(999), (27, 28));
    assert_eq!(plane_sizes(8, 4), Ok(((8, 4), (4, 2))));
    assert_eq!(plane_sizes(7, 4), Err("NV12 requires even dims, got 7x4".to_string()));
}

#[test]
fn recent_textures_are_left_alone() {
    let mut ring = Ring::new();
    let slots: Vec<usize> = (0..12).map(|_| ring.advance()).collect();
    assert_eq!(&slots[..5], &[1, 2, 3, 0, 1]);
    for window in slots.windows(RING) {
        let mut seen = window.to_vec();
        seen.sort();
        seen.dedup();
        assert_eq!(seen.len(), RING);
    }
    assert!(converts_ahead(0) && converts_ahead(1) && !converts_ahead(2));
}

#[test]
fn gpu_encoders() {
    assert_eq!(gpu_encoder("NVIDIA GeForce RTX 4070"), GpuEncoder::Nvenc);
    assert_eq!(gpu_encoder("AMD Radeon"), GpuEncoder::Mf);
    assert_eq!(gpu_encoder_of("nvidia"), GpuEncoder::Nvenc);
    assert_eq!(gpu_encoder_of("NVIDIA"), GpuEncoder::Mf);
    assert!(gpu_viable(GpuEncoder::Nvenc, true, false));
    assert!(!gpu_viable(GpuEncoder::Mf, true, false));
    assert!(tries_gpu(SourceKind::Spout, true));
    assert!(!tries_gpu(SourceKind::Window, true));
    assert!(!tries_gpu(SourceKind::Spout, false));
}

#[test]
fn gpu_starts_take_every_step() {
    let mut step = InitStep::OpenSource;
    let mut steps = vec![step];
    let ready = loop {
        match after_step(step, GpuEncoder::Nvenc, None) {
            InitProgress::Step(next) => {
                step = next;
                steps.push(next);
            }
            InitProgress::Ready => break true,
            InitProgress::Failed(_) => break false,
        }
    };
    assert!(ready);
    assert_eq!(steps.len(), 7);
    match after_step(InitStep::Initialize, GpuEncoder::Nvenc, Some("bad")) {
        InitProgress::Failed(text) => assert_eq!(text, "NVENC initialize: bad"),
        other => panic!("{:?}", other),
    }
    match after_step(InitStep::OpenMft, GpuEncoder::Mf, Some("ignored")) {
        InitProgress::Failed(text) => {
            assert_eq!(text, "no usable hardware MFT opened on the shared device")
        }
        other => panic!("{:?}", other),
    }
    assert!(matches!(after_step(InitStep::OpenMft, GpuEncoder::Mf, None), InitProgress::Ready));
}

#[test]
fn gpu_failures_fall_back() {
    assert_eq!(fallback_reason(InitOutcome::Ready), None);
    assert_eq!(fallback_reason(InitOutcome::Failed("x".to_string())), Some("x".to_string()));
    assert_eq!(
        fallback_reason(InitOutcome::Gone).unwrap(),
        "GPU worker exited before signalling init"
    );
    assert_eq!(fallback_reason(InitOutcome::TimedOut).unwrap(), "GPU worker init timed out");
}

#[test]
fn gpu_loops() {
    let mut tally = Tally::new();
    assert_eq!(after_frame(&mut tally, FrameOutcome::Unit { queued: true }), LoopNext::Pace);
    assert_eq!(after_frame(&mut tally, FrameOutcome::Unit { queued: false }), LoopNext::Pace);
    assert_eq!(after_frame(&mut tally, FrameOutcome::Buffered), LoopNext::Pace);
    assert_eq!(after_frame(&mut tally, FrameOutcome::ConvertFailed), LoopNext::RetryAfter(50));
    assert_eq!(after_frame(&mut tally, FrameOutcome::EncodeFailed), LoopNext::Stop);
    assert_eq!((tally.produced, tally.dropped), (2, 1));
}

#[test]
fn windows_are_opened_step_by_step() {
    let client = Some(Crop { x: 8, y: 31, width: 100, height: 50 });
    let facts = Some(WindowFacts { minimized: false, visible: true, client });
    let (mut opening, step) = WindowOpening::new("w".to_string(), facts);
    assert!(matches!(step, OpenStep::Start { hide_border: true }));
    let step = opening.started(Some("BorderConfigUnsupported".to_string()));
    assert!(matches!(step, OpenStep::Start { hide_border: false }));
    assert!(matches!(opening.started(None), OpenStep::Poll));
    assert!(matches!(opening.polled(None, 100), OpenStep::Wait(20)));
    assert!(matches!(opening.polled(Some((0, 9)), 8001), OpenStep::Fail(t) if t.contains("'w'")));
    assert!(matches!(
        opening.polled(Some((116, 90)), 9000),
        OpenStep::Open(Crop { x: 8, y: 30, width: 100, height: 50 })
    ));
    let again = opening.started(Some("Unsupported".to_string()));
    assert!(matches!(again, OpenStep::Fail(t) if t == "Unsupported"));
}

#[test]
fn windows_that_do_not_open() {
    let facts = Some(WindowFacts { minimized: true, visible: true, client: None });
    let (_, step) = WindowOpening::new("w".to_string(), facts);
    assert!(matches!(step, OpenStep::Fail(t) if t.contains("minimized")));
    let (mut opening, step) = WindowOpening::new("w".to_string(), None);
    assert!(matches!(step, OpenStep::Start { hide_border: true }));
    let step = opening.started(Some("denied".to_string()));
    assert!(matches!(step, OpenStep::Fail(t) if t == "denied"));
}
