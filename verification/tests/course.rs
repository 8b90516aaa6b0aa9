use chart_render::config::{Config, Dynamics, RenderConfig, RenderParams};
use chart_render::error::RenderError;
use chart_render::ffmpeg::{creation_flags, find_ffmpeg, require_ffmpeg, FfmpegSearch, Trial};
use chart_render::player::{avatar_path, build_player, AvatarError};
use chart_render::request::output_path;
use chart_render::schedule::{frame_bytes, FrameSchedule, Target, TargetPicker, BUFFERS};
use chart_render::session::{advance, IPCEvent, Signal, Stage};

fn options() -> RenderConfig<f32, f64, char> {
    RenderConfig {
        resolution: (640, 480),
        ffmpeg_preset: "medium".to_string(),
        ending_length: -2.0,
        disable_loading: false,
        hires: true,
        chart_debug: true,
        chart_ratio: 0.75,
        all_good: true,
        fps: 30,
        hardware_accel: false,
        hevc: false,
        bitrate_control: "CRF".to_string(),
        bitrate: "20".to_string(),
        aggressive: false,
        challenge_color: 'R',
        challenge_rank: 3,
        disable_effect: true,
        double_hint: false,
        fxaa: true,
        note_scale: 1.5,
        particle: false,
        player_avatar: Some("me.png".to_string()),
        player_name: "Me".to_string(),
        player_rks: 16.25,
        sample_count: 2,
        res_pack_path: Some("pack.zip".to_string()),
        speed: 2.0,
        volume_music: 0.25,
        volume_sfx: 0.5,
        compression_ratio: 20.0,
        force_limit: false,
        limit_threshold: 0.5,
        watermark: "mark".to_string(),
        roman: true,
        chinese: false,
        combo: "AUTO".to_string(),
        difficulty: "AT".to_string(),
        phira_mode: true,
        judge_offset: 0.125,
    }
}

fn check_shared(config: &Config<f32, char>) {
    assert!(!config.aggressive && config.disable_effect && !config.disable_loading);
    assert!(config.hires && !config.double_hint && config.fxaa && !config.particle);
    assert!(config.chart_debug && config.all_good && config.roman && !config.chinese);
    assert!(config.phira_mode);
    assert_eq!(config.challenge_color, 'R');
    assert_eq!(config.challenge_rank, 3);
    assert_eq!(config.note_scale, 1.5);
    assert_eq!(config.player_name, "Me");
    assert_eq!(config.player_rks, 16.25);
    assert_eq!(config.sample_count, 2);
    assert_eq!(config.res_pack_path, Some("pack.zip".to_string()));
    assert_eq!(config.speed, 2.0);
    assert_eq!(config.chart_ratio, 0.75);
    assert_eq!(config.watermark, "mark");
    assert_eq!(config.combo, "AUTO");
    assert_eq!(config.difficulty, "AT");
    assert_eq!(config.judge_offset, 0.125);
}

#[test]
fn options_configure_the_player() {
    let params = RenderParams { path: "chart.zip".to_string(), info: (), config: options() };
    assert_eq!(params.path, "chart.zip");
    let config = params.config.to_config();
    check_shared(&config);
    assert!(!config.disable_audio && !config.autoplay);
    assert_eq!((config.volume_music, config.volume_sfx), (0.25, 0.5));
}

#[test]
fn rendering_takes_the_volumes() {
    let offline = options().to_config().into_offline(0.0);
    check_shared(&offline.config);
    assert!(offline.config.disable_audio && offline.config.autoplay);
    assert_eq!((offline.config.volume_music, offline.config.volume_sfx), (0.0, 0.0));
    assert_eq!((offline.volume_music, offline.volume_sfx), (0.25, 0.5));
}

#[test]
fn other_settings_do_not_reach_the_player() {
    let mut c = options();
    c.resolution = (1, 2);
    c.ffmpeg_preset = String::new();
    c.ending_length = 9.0;
    c.fps = 1;
    c.hardware_accel = true;
    c.hevc = true;
    c.bitrate_control = String::new();
    c.bitrate = String::new();
    c.player_avatar = None;
    c.compression_ratio = 0.0;
    c.force_limit = true;
    c.limit_threshold = 0.0;
    let config = c.to_config();
    check_shared(&config);
    assert!(!config.disable_audio && !config.autoplay);
    assert_eq!((config.volume_music, config.volume_sfx), (0.25, 0.5));
}

#[test]
fn one_setting_changes_one_field() {
    let mut c = options();
    c.volume_sfx = 0.75;
    let config = c.to_config();
    check_shared(&config);
    assert!(!config.disable_audio && !config.autoplay);
    assert_eq!((config.volume_music, config.volume_sfx), (0.25, 0.75));
}

#[test]
fn lead_in_and_loading_scene() {
    let mut c = options();
    assert_eq!(c.lead_in(1.0, 5.0), 5.0);
    assert!(c.shows_loading(true) && !c.shows_loading(false));
    c.disable_loading = true;
    assert_eq!(c.lead_in(1.0, 5.0), 1.0);
    assert!(!c.shows_loading(true));
}

#[test]
fn limit_precedes_compression() {
    let mut c = options();
    assert_eq!(c.dynamics(true), Dynamics::Compress);
    assert_eq!(c.dynamics(false), Dynamics::Untouched);
    c.force_limit = true;
    assert_eq!(c.dynamics(true), Dynamics::Limit);
    assert_eq!(c.dynamics(false), Dynamics::Limit);
}

#[test]
fn player_with_and_without_avatar() {
    let mut c = options();
    assert_eq!(avatar_path(&c), Some("me.png".to_string()));
    let player = build_player(&c, Some(Ok::<&str, &str>("pixels"))).ok().unwrap();
    assert_eq!((player.avatar, player.id, player.rks), (Some("pixels"), 0, 16.25));
    let e: AvatarError<&str> = build_player(&c, Some(Err::<u8, &str>("no such file"))).err().unwrap();
    assert_eq!(e.cause, "no such file");
    assert_eq!(e.key(), "load-avatar-failed");
    c.player_avatar = None;
    assert_eq!(avatar_path(&c), None);
    let player = build_player::<f32, f64, char, u8, &str>(&c, None).ok().unwrap();
    assert_eq!((player.avatar, player.id, player.rks), (None, 0, 16.25));
    assert!(build_player(&c, Some(Ok::<u8, &str>(7))).ok().unwrap().avatar.is_none());
    assert!(build_player(&c, Some(Err::<u8, &str>("x"))).ok().unwrap().avatar.is_none());
}

fn trial(path: &str, runs: bool) -> Trial {
    Trial { path: path.to_string(), runs }
}

#[test]
fn installed_ffmpeg_is_preferred() {
    let search = FfmpegSearch::TryInstalled;
    assert_eq!(search.candidate(true), Some("ffmpeg"));
    let search = find_ffmpeg(search, trial("ffmpeg", true));
    assert_eq!(search.candidate(true), None);
    let search = find_ffmpeg(search, trial("/opt/ffmpeg", true));
    let found = search.found();
    assert_eq!(found, Some("ffmpeg".to_string()));
    assert_eq!(require_ffmpeg(found).unwrap(), "ffmpeg");
}

#[test]
fn bundled_ffmpeg_is_tried_next() {
    let search = find_ffmpeg(FfmpegSearch::TryInstalled, trial("ffmpeg", false));
    assert_eq!(search.candidate(false), Some("ffmpeg"));
    assert_eq!(search.candidate(true), Some("ffmpeg.exe"));
    let search = find_ffmpeg(search, trial("/app/ffmpeg", true));
    assert_eq!(search.found(), Some("/app/ffmpeg".to_string()));
}

#[test]
fn ffmpeg_may_be_missing() {
    let search = find_ffmpeg(FfmpegSearch::TryInstalled, trial("ffmpeg", false));
    let search = find_ffmpeg(search, trial("/app/ffmpeg", false));
    assert_eq!(search.candidate(false), None);
    let found = search.found();
    assert_eq!(found, None);
    let e = require_ffmpeg(found).unwrap_err();
    assert!(matches!(e, RenderError::FfmpegNotFound));
    assert_eq!(e.key(), None);
}

#[test]
fn nothing_is_found_before_the_search_ends() {
    assert_eq!(FfmpegSearch::TryInstalled.found(), None);
    assert_eq!(FfmpegSearch::TryBundled.found(), None);
}

#[test]
fn console_windows_are_hidden_on_windows() {
    assert_eq!(creation_flags(true), Some(0x08000000));
    assert_eq!(creation_flags(false), None);
}

#[test]
fn output_path_is_read() {
    assert_eq!(output_path("\"/tmp/out put.mp4\"\n").unwrap(), "/tmp/out put.mp4");
    assert_eq!(output_path("\u{3000}\"\"\r\n").unwrap(), "");
    assert_eq!(output_path("\"C:\\\\v\\u00e9.mov\"").unwrap(), "C:\\v\u{e9}.mov");
}

#[test]
fn output_path_must_be_a_string() {
    for line in ["", "\n", "/tmp/out.mp4", "{}", "[1]", "null", "\"open", "\"a\" b", "\"a\tb\""] {
        let e = output_path(line).unwrap_err();
        assert!(matches!(e, RenderError::OutputPath(_)), "{}", line);
        assert_eq!(e.key(), None);
    }
}

#[test]
fn error_asks_for_a_path() {
    if let RenderError::OutputPath(e) = output_path("7").unwrap_err() {
        assert!(e.to_string().contains("path string"), "{}", e);
    } else {
        panic!("the line is no path");
    }
}

fn emitted(total: u64) -> (u64, Vec<u64>, Vec<u64>) {
    let mut ring: Vec<Option<u64>> = vec![None; BUFFERS];
    let mut schedule = FrameSchedule::new(total);
    let mut out = Vec::new();
    let mut reports = Vec::new();
    let mut steps = 0;
    while let Some(step) = schedule.current() {
        assert_eq!(step.frame, steps);
        if step.report {
            reports.push(step.frame);
        }
        ring[step.write] = Some(step.frame);
        if let Some(slot) = step.read {
            out.push(ring[slot].unwrap());
        }
        schedule.advance();
        steps += 1;
    }
    (steps, out, reports)
}

#[test]
fn pictures_leave_in_order() {
    let (steps, out, reports) = emitted(250);
    assert_eq!(steps, 250);
    let expected: Vec<u64> = (1..=190).collect();
    assert_eq!(out, expected);
    assert_eq!(reports, vec![75, 100, 125, 150, 175, 200, 225]);
}

#[test]
fn ring_is_filled_even_for_short_videos() {
    assert_eq!(emitted(0), (60, vec![], vec![]));
    assert_eq!(emitted(60), (60, vec![], vec![]));
    assert_eq!(emitted(61), (61, vec![1], vec![60]));
}

#[test]
fn picture_size() {
    assert_eq!(frame_bytes(1920, 1080), 8294400);
    assert_eq!(frame_bytes(0, 1080), 0);
}

#[test]
fn multisampled_side_is_picked_twice() {
    let mut picker = TargetPicker::new();
    let picks: Vec<Target> = (0..300).map(|_| picker.pick()).collect();
    for (i, pick) in picks.iter().enumerate() {
        let expected = if i == 0 || i == 2 { Target::Input } else { Target::Output };
        assert_eq!(*pick, expected);
    }
}

fn course(total: u64) -> Vec<IPCEvent<f64>> {
    let mut sent = Vec::new();
    let (stage, message) = advance(Stage::Loading, Signal::ResourcesLoaded).unwrap();
    sent.push(message);
    assert!(stage.step().is_none());
    let (mut stage, message) = advance(stage, Signal::AudioMixed(total)).unwrap();
    sent.push(message);
    while stage.step().is_some() {
        let (next, message) = advance(stage, Signal::FrameRendered).unwrap();
        stage = next;
        sent.push(message);
    }
    let (stage, message) = advance(stage, Signal::EncoderExited(1.5)).unwrap();
    assert!(matches!(stage, Stage::Finished));
    sent.push(message);
    sent
}

#[test]
fn messages_of_a_rendering() {
    for (total, frames) in [(75, 75), (10, 60)] {
        let sent = course(total);
        assert_eq!(sent.len(), frames + 3);
        assert_eq!(sent[0], IPCEvent::StartMixing);
        assert_eq!(sent[1], IPCEvent::StartRender(total));
        assert!(sent[2..frames + 2].iter().all(|m| *m == IPCEvent::Frame));
        assert_eq!(sent[frames + 2], IPCEvent::Done(1.5));
    }
}

#[test]
fn signals_out_of_place_are_refused() {
    assert!(advance(Stage::Loading, Signal::<f64>::FrameRendered).is_none());
    assert!(advance(Stage::Mixing, Signal::<f64>::ResourcesLoaded).is_none());
    let (stage, _) = advance(Stage::Mixing, Signal::<f64>::AudioMixed(3)).unwrap();
    assert!(advance(stage, Signal::EncoderExited(0.0)).is_none());
    assert!(advance(Stage::Finished, Signal::<f64>::FrameRendered).is_none());
}
