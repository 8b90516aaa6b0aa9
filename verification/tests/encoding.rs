use chart_render::arguments::{log_args, mix_args, sink_args, source_args};
use chart_render::config::RenderConfig;
use chart_render::encoder::{codec_listing, find_encoders, HardwareEncoders};
use chart_render::error::RenderError;

fn config() -> RenderConfig<f32, f64, u8> {
    RenderConfig {
        resolution: (1920, 1080),
        ffmpeg_preset: "medium p4 balanced".to_string(),
        ending_length: 12.5,
        disable_loading: true,
        hires: false,
        chart_debug: false,
        chart_ratio: 1.0,
        all_good: false,
        fps: 60,
        hardware_accel: false,
        hevc: false,
        bitrate_control: "CRF".to_string(),
        bitrate: "28".to_string(),
        aggressive: true,
        challenge_color: 4,
        challenge_rank: 45,
        disable_effect: false,
        double_hint: true,
        fxaa: false,
        note_scale: 1.0,
        particle: true,
        player_avatar: None,
        player_name: "Player".to_string(),
        player_rks: 15.0,
        sample_count: 4,
        res_pack_path: None,
        speed: 1.0,
        volume_music: 1.0,
        volume_sfx: 0.7,
        compression_ratio: 20.0,
        force_limit: false,
        limit_threshold: 0.5,
        watermark: String::new(),
        roman: false,
        chinese: false,
        combo: "COMBO".to_string(),
        difficulty: String::new(),
        phira_mode: false,
        judge_offset: 0.0,
    }
}

fn accelerated(hevc: bool) -> RenderConfig<f32, f64, u8> {
    let mut c = config();
    c.hardware_accel = true;
    c.hevc = hevc;
    c
}

fn none() -> HardwareEncoders {
    HardwareEncoders {
        nvenc: false,
        qsv: false,
        amf: false,
        nvenc_hevc: false,
        qsv_hevc: false,
        amf_hevc: false,
    }
}

fn split(s: &str) -> Vec<String> {
    s.split_whitespace().map(|w| w.to_string()).collect()
}

#[test]
fn listing_is_decoded() {
    let text = "h264_nvenc \u{2713}";
    assert_eq!(codec_listing(text.as_bytes().to_vec()).unwrap(), text);
    assert_eq!(codec_listing(Vec::new()).unwrap(), "");
}

#[test]
fn listing_that_is_not_utf8_is_refused() {
    let e = codec_listing(vec![0x68, 0xff]).unwrap_err();
    assert!(matches!(e, RenderError::CodecListing(_)));
    assert_eq!(e.key(), None);
}

#[test]
fn nothing_is_looked_for_without_acceleration() {
    let found = find_encoders(&config(), "h264_nvenc h264_qsv hevc_nvenc").unwrap();
    assert_eq!(found, none());
    assert_eq!(found.encoder(false), "libx264");
    assert_eq!(found.encoder(true), "libx265");
    assert_eq!(found.preset_flag(), "-preset");
    assert_eq!(found.rate_flag(true), "-crf");
    assert_eq!(found.rate_flag(false), "-b:v");
    assert_eq!(found.preset_name("medium p4 balanced").unwrap(), "medium");
}

#[test]
fn nvenc_comes_first() {
    let found = find_encoders(&accelerated(false), "h264_nvenc h264_qsv h264_amf").unwrap();
    assert!(found.nvenc && found.qsv && found.amf);
    assert_eq!(found.encoder(false), "h264_nvenc");
    assert_eq!(found.preset_name("medium p4 balanced").unwrap(), "p4");
    assert_eq!(found.rate_flag(true), "-cq");
    assert_eq!(found.preset_flag(), "-preset");
}

#[test]
fn qsv_comes_next() {
    let found = find_encoders(&accelerated(false), "h264_qsv h264_amf").unwrap();
    assert_eq!(found.encoder(false), "h264_qsv");
    assert_eq!(found.preset_name("medium p4 balanced").unwrap(), "medium");
    assert_eq!(found.rate_flag(true), "-q");
}

#[test]
fn amf_alone_means_software() {
    let found = find_encoders(&accelerated(false), "h264_amf").unwrap();
    assert_eq!(found.encoder(false), "libx264");
    assert_eq!(found.preset_flag(), "-quality");
    assert_eq!(found.preset_name("medium p4 balanced").unwrap(), "balanced");
    assert_eq!(found.rate_flag(true), "-crf");
}

#[test]
fn hevc_needs_both_kinds_of_encoders() {
    let ok = find_encoders(&accelerated(true), "h264_nvenc hevc_nvenc").unwrap();
    assert_eq!(ok.encoder(true), "hevc_nvenc");
    let e = find_encoders(&accelerated(true), "h264_nvenc").unwrap_err();
    assert!(matches!(e, RenderError::NoHardwareEncoder));
    assert_eq!(e.key(), Some("no-hwacc"));
    assert!(find_encoders(&accelerated(true), "hevc_nvenc").is_err());
    assert!(find_encoders(&accelerated(false), "hevc_nvenc libx264").is_err());
}

#[test]
fn hevc_of_one_maker_and_h264_of_another() {
    let found = find_encoders(&accelerated(true), "h264_nvenc h264_qsv hevc_qsv").unwrap();
    assert_eq!(found.encoder(true), "h264_nvenc");
    let found = find_encoders(&accelerated(true), "h264_qsv hevc_qsv hevc_amf").unwrap();
    assert_eq!(found.encoder(true), "hevc_qsv");
}

#[test]
fn software_is_told_from_hardware() {
    assert!(none().in_software());
    assert!(find_encoders(&accelerated(false), "h264_amf").unwrap().in_software());
    assert!(!find_encoders(&accelerated(false), "h264_qsv").unwrap().in_software());
    assert!(!find_encoders(&accelerated(true), "h264_amf hevc_nvenc").unwrap().in_software());
    assert!(!find_encoders(&accelerated(true), "h264_amf hevc_qsv").unwrap().in_software());
    assert!(!find_encoders(&accelerated(false), "h264_nvenc").unwrap().in_software());
}

#[test]
fn too_few_presets_give_none() {
    let found = find_encoders(&accelerated(false), "h264_nvenc").unwrap();
    assert_eq!(found.preset_name("medium"), None);
    assert_eq!(none().preset_name("  "), None);
}

#[test]
fn mixing_arguments() {
    assert_eq!(
        mix_args(),
        split("-y -f f32le -ar 48000 -ac 2 -i - -c:a pcm_f32le -f wav")
    );
    assert_eq!(log_args(), split("-loglevel warning"));
}

#[test]
fn picture_arguments() {
    assert_eq!(
        source_args(&config(), &none()),
        split(
            "-probesize 50M -y -f rawvideo -c:v rawvideo -s 1920x1080 -r 60 -pix_fmt rgba \
             -thread_queue_size 1024 -i - -i"
        )
    );
    let mut with = none();
    with.nvenc = true;
    assert_eq!(
        source_args(&config(), &with),
        split(
            "-probesize 50M -y -f rawvideo -c:v rawvideo -hwaccel_output_format cuda \
             -s 1920x1080 -r 60 -pix_fmt rgba -thread_queue_size 1024 -i - -i"
        )
    );
}

#[test]
fn encoding_arguments() {
    let line = format!(
        "-c:a {} -c:v {} -pix_fmt yuv420p {} {} {} {} -map 0:v:0 -map 1:a:0 {} -vf vflip -f {}",
        "aac -b:a 320k", "libx264", "-crf", "28", "-preset", "medium", "-ss 3.5", "mp4"
    );
    assert_eq!(sink_args(&config(), &none(), "medium", "3.5"), split(&line));
}

#[test]
fn encoding_arguments_of_a_high_resolution_video() {
    let mut c = config();
    c.hires = true;
    c.disable_loading = false;
    c.bitrate_control = "VBR".to_string();
    c.bitrate = "7M -maxrate 9M".to_string();
    let line = format!(
        "-c:a {} -c:v {} -pix_fmt yuv420p {} {} {} {} -map 0:v:0 -map 1:a:0 {} -vf vflip -f {}",
        "copy", "libx264", "-b:v", "7M -maxrate 9M", "-preset", "fast", "", "mov"
    );
    assert_eq!(sink_args(&c, &none(), "fast", "3.5"), split(&line));
}

#[test]
fn empty_bit_rate_leaves_no_argument() {
    let mut c = config();
    c.bitrate = String::new();
    let args = sink_args(&c, &none(), "medium", "3.5");
    assert!(args.iter().all(|a| !a.is_empty() && !a.contains(' ')));
    assert!(!args.contains(&"28".to_string()));
}
