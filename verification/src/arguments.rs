//! The argument lists that ffmpeg is run with.
//!
//! A list is stated as a sequence of texts. The blank-separated line that reads the same is
//! given beside it.

use crate::config::RenderConfig;
use crate::encoder::HardwareEncoders;
use crate::mix::SAMPLE_RATE;
use crate::text;
use vstd::prelude::*;

verus! {

/// `parts`, with one space between each two.
pub open spec fn joined(parts: Seq<Seq<char>>) -> Seq<char>
    decreases parts.len(),
{
    if parts.len() == 0 {
        seq![]
    } else if parts.len() == 1 {
        parts[0]
    } else {
        joined(parts.drop_last()).push(' ') + parts.last()
    }
}

/// The words of all `parts`, one part after the other.
pub open spec fn words_of_all(parts: Seq<Seq<char>>) -> Seq<Seq<char>>
    decreases parts.len(),
{
    if parts.len() == 0 {
        seq![]
    } else {
        words_of_all(parts.drop_last()) + text::words(parts.last())
    }
}

/// A joined line holds the words of its parts.
pub proof fn lemma_words_of_joined(parts: Seq<Seq<char>>)
    ensures
        text::words(joined(parts)) == words_of_all(parts),
    decreases parts.len(),
{
    if parts.len() == 0 {
    } else if parts.len() == 1 {
        assert(words_of_all(parts.drop_last()) =~= seq![]);
        assert(words_of_all(parts) =~= text::words(parts[0]));
    } else {
        lemma_words_of_joined(parts.drop_last());
        text::lemma_words_separated(joined(parts.drop_last()), ' ', parts.last());
    }
}

fn push_word(args: &mut Vec<String>, word: &str)
    ensures
        final(args).deep_view() == old(args).deep_view().push(word@),
{
    args.push(word.to_owned());
    assert(args.deep_view() =~= old(args).deep_view().push(word@));
}

fn push_words(args: &mut Vec<String>, line: &str)
    ensures
        final(args).deep_view() == old(args).deep_view() + text::words(line@),
{
    let more = text::split_words(line);
    let mut i: usize = 0;
    assert(more.deep_view().take(0) =~= seq![]);
    assert(args.deep_view() =~= old(args).deep_view() + more.deep_view().take(0));
    while i < more.len()
        invariant
            i <= more@.len(),
            more.deep_view() == text::words(line@),
            args.deep_view() == old(args).deep_view() + more.deep_view().take(i as int),
        decreases more@.len() - i,
    {
        push_word(args, more[i].as_str());
        assert(more.deep_view().take(i + 1) =~= more.deep_view().take(i as int).push(
            more@[i as int]@,
        ));
        assert(args.deep_view() =~= old(args).deep_view() + more.deep_view().take(i + 1));
        i = i + 1;
    }
    assert(more.deep_view().take(i as int) =~= more.deep_view());
}

/// The arguments that silence ffmpeg but for warnings; they end every run.
pub open spec fn log_words() -> Seq<Seq<char>> {
    seq!["-loglevel"@, "warning"@]
}

/// The arguments that end every run of ffmpeg.
pub fn log_args() -> (r: Vec<String>)
    ensures
        r.deep_view() == log_words(),
{
    let mut r: Vec<String> = Vec::new();
    push_word(&mut r, "-loglevel");
    push_word(&mut r, "warning");
    assert(r.deep_view() =~= log_words());
    r
}

/// The arguments that turn raw samples on the standard input into a sound file, whose path
/// follows them.
pub open spec fn mix_words() -> Seq<Seq<char>> {
    seq![
        "-y"@,
        "-f"@,
        "f32le"@,
        "-ar"@,
        text::digits(SAMPLE_RATE as nat),
        "-ac"@,
        "2"@,
        "-i"@,
        "-"@,
        "-c:a"@,
        "pcm_f32le"@,
        "-f"@,
        "wav"@,
    ]
}

/// The arguments that turn raw samples on the standard input into a sound file.
pub fn mix_args() -> (r: Vec<String>)
    ensures
        r.deep_view() == mix_words(),
{
    let mut r: Vec<String> = Vec::new();
    push_word(&mut r, "-y");
    push_word(&mut r, "-f");
    push_word(&mut r, "f32le");
    push_word(&mut r, "-ar");
    push_word(&mut r, text::decimal(SAMPLE_RATE).as_str());
    push_word(&mut r, "-ac");
    push_word(&mut r, "2");
    push_word(&mut r, "-i");
    push_word(&mut r, "-");
    push_word(&mut r, "-c:a");
    push_word(&mut r, "pcm_f32le");
    push_word(&mut r, "-f");
    push_word(&mut r, "wav");
    assert(r.deep_view() =~= mix_words());
    r
}

/// The picture size as ffmpeg takes it.
pub open spec fn size_text(width: u32, height: u32) -> Seq<char> {
    text::digits(width as nat).push('x') + text::digits(height as nat)
}

/// The arguments that describe the pictures on the standard input; the path of the mixed sound
/// follows them.
pub open spec fn source_words(width: u32, height: u32, fps: u32, nvenc: bool) -> Seq<Seq<char>> {
    seq!["-probesize"@, "50M"@, "-y"@, "-f"@, "rawvideo"@, "-c:v"@, "rawvideo"@] + (if nvenc {
        seq!["-hwaccel_output_format"@, "cuda"@]
    } else {
        seq![]
    }) + seq![
        "-s"@,
        size_text(width, height),
        "-r"@,
        text::digits(fps as nat),
        "-pix_fmt"@,
        "rgba"@,
        "-thread_queue_size"@,
        "1024"@,
        "-i"@,
        "-"@,
        "-i"@,
    ]
}

/// The arguments that describe the pictures on the standard input.
pub fn source_args<S, D, C>(config: &RenderConfig<S, D, C>, encoders: &HardwareEncoders) -> (r: Vec<
    String,
>)
    ensures
        r.deep_view() == source_words(
            config.resolution.0,
            config.resolution.1,
            config.fps,
            encoders.nvenc,
        ),
{
    let mut size = text::decimal(config.resolution.0);
    size.append("x");
    size.append(text::decimal(config.resolution.1).as_str());
    proof {
        reveal_strlit("x");
        assert(size@ =~= size_text(config.resolution.0, config.resolution.1));
    }
    let mut r: Vec<String> = Vec::new();
    push_word(&mut r, "-probesize");
    push_word(&mut r, "50M");
    push_word(&mut r, "-y");
    push_word(&mut r, "-f");
    push_word(&mut r, "rawvideo");
    push_word(&mut r, "-c:v");
    push_word(&mut r, "rawvideo");
    if encoders.nvenc {
        push_word(&mut r, "-hwaccel_output_format");
        push_word(&mut r, "cuda");
    }
    push_word(&mut r, "-s");
    push_word(&mut r, size.as_str());
    push_word(&mut r, "-r");
    push_word(&mut r, text::decimal(config.fps).as_str());
    push_word(&mut r, "-pix_fmt");
    push_word(&mut r, "rgba");
    push_word(&mut r, "-thread_queue_size");
    push_word(&mut r, "1024");
    push_word(&mut r, "-i");
    push_word(&mut r, "-");
    push_word(&mut r, "-i");
    assert(r.deep_view() =~= source_words(
        config.resolution.0,
        config.resolution.1,
        config.fps,
        encoders.nvenc,
    ));
    r
}

/// How the sound is encoded: as it was mixed for a high resolution output, else as AAC.
pub open spec fn sound_words(hires: bool) -> Seq<Seq<char>> {
    if hires {
        seq!["-c:a"@, "copy"@]
    } else {
        seq!["-c:a"@, "aac"@, "-b:a"@, "320k"@]
    }
}

fn push_sound(args: &mut Vec<String>, hires: bool)
    ensures
        final(args).deep_view() == old(args).deep_view() + sound_words(hires),
{
    push_word(args, "-c:a");
    if hires {
        push_word(args, "copy");
    } else {
        push_word(args, "aac");
        push_word(args, "-b:a");
        push_word(args, "320k");
    }
    assert(args.deep_view() =~= old(args).deep_view() + sound_words(hires));
}

/// Which encoder makes the picture, and the flag that its rate follows.
pub open spec fn picture_words(
    encoders: HardwareEncoders,
    hevc: bool,
    constant_quality: bool,
) -> Seq<Seq<char>> {
    seq![
        "-c:v"@,
        encoders.encoder_name(hevc),
        "-pix_fmt"@,
        "yuv420p"@,
        encoders.rate_flag_text(constant_quality),
    ]
}

fn push_picture(
    args: &mut Vec<String>,
    encoders: &HardwareEncoders,
    hevc: bool,
    constant_quality: bool,
)
    ensures
        final(args).deep_view() == old(args).deep_view() + picture_words(
            *encoders,
            hevc,
            constant_quality,
        ),
{
    push_word(args, "-c:v");
    push_word(args, encoders.encoder(hevc));
    push_word(args, "-pix_fmt");
    push_word(args, "yuv420p");
    push_word(args, encoders.rate_flag(constant_quality));
    assert(args.deep_view() =~= old(args).deep_view() + picture_words(
        *encoders,
        hevc,
        constant_quality,
    ));
}

/// Which streams are taken: the picture of the first input, the sound of the second.
pub open spec fn stream_words() -> Seq<Seq<char>> {
    seq!["-map"@, "0:v:0"@, "-map"@, "1:a:0"@]
}

/// Where the output starts: after the lead-in where the loading scene is left out.
pub open spec fn seek_words(disable_loading: bool, lead_in: Seq<char>) -> Seq<Seq<char>> {
    if disable_loading {
        seq!["-ss"@] + text::words(lead_in)
    } else {
        seq![]
    }
}

fn push_streams(args: &mut Vec<String>, disable_loading: bool, lead_in: &str)
    ensures
        final(args).deep_view() == old(args).deep_view() + stream_words() + seek_words(
            disable_loading,
            lead_in@,
        ),
{
    push_word(args, "-map");
    push_word(args, "0:v:0");
    push_word(args, "-map");
    push_word(args, "1:a:0");
    if disable_loading {
        push_word(args, "-ss");
        push_words(args, lead_in);
    }
    assert(args.deep_view() =~= old(args).deep_view() + stream_words() + seek_words(
        disable_loading,
        lead_in@,
    ));
}

/// The flip that turns the pictures upright, and the kind of file.
pub open spec fn container_words(hires: bool) -> Seq<Seq<char>> {
    seq![
        "-vf"@,
        "vflip"@,
        "-f"@,
        if hires {
            "mov"@
        } else {
            "mp4"@
        },
    ]
}

fn push_container(args: &mut Vec<String>, hires: bool)
    ensures
        final(args).deep_view() == old(args).deep_view() + container_words(hires),
{
    push_word(args, "-vf");
    push_word(args, "vflip");
    push_word(args, "-f");
    if hires {
        push_word(args, "mov");
    } else {
        push_word(args, "mp4");
    }
    assert(args.deep_view() =~= old(args).deep_view() + container_words(hires));
}

/// The arguments that say how picture and sound are encoded; the path of the output file
/// follows them. The bit rate, the preset and the lead-in are split at their blanks.
pub open spec fn sink_words<S, D, C>(
    config: RenderConfig<S, D, C>,
    encoders: HardwareEncoders,
    preset: Seq<char>,
    lead_in: Seq<char>,
) -> Seq<Seq<char>> {
    sound_words(config.hires) + picture_words(
        encoders,
        config.hevc,
        config.bitrate_control@ == "CRF"@,
    ) + text::words(config.bitrate@) + seq![encoders.preset_flag_text()] + text::words(preset)
        + stream_words() + seek_words(config.disable_loading, lead_in) + container_words(
        config.hires,
    )
}

/// The arguments that say how picture and sound are encoded, given the name of the preset and
/// the lead-in in seconds, which is cut off where the loading scene is left out.
pub fn sink_args<S, D, C>(
    config: &RenderConfig<S, D, C>,
    encoders: &HardwareEncoders,
    preset: &str,
    lead_in: &str,
) -> (r: Vec<String>)
    ensures
        r.deep_view() == sink_words(*config, *encoders, preset@, lead_in@),
{
    let constant_quality = config.bitrate_control == "CRF".to_owned();
    let mut r: Vec<String> = Vec::new();
    push_sound(&mut r, config.hires);
    assert(r.deep_view() =~= sound_words(config.hires));
    push_picture(&mut r, encoders, config.hevc, constant_quality);
    push_words(&mut r, config.bitrate.as_str());
    let ghost before = r.deep_view();
    push_word(&mut r, encoders.preset_flag());
    assert(r.deep_view() =~= before + seq![encoders.preset_flag_text()]);
    push_words(&mut r, preset);
    push_streams(&mut r, config.disable_loading, lead_in);
    push_container(&mut r, config.hires);
    r
}

proof fn lemma_sound_literals()
    ensures
        text::is_word("-c:a"@),
        text::is_word("copy"@),
        text::is_word("aac"@),
        text::is_word("-b:a"@),
        text::is_word("320k"@),
{
    reveal_strlit("-c:a");
    reveal_strlit("copy");
    reveal_strlit("aac");
    reveal_strlit("-b:a");
    reveal_strlit("320k");
}

proof fn lemma_encoder_literals()
    ensures
        text::is_word("hevc_nvenc"@),
        text::is_word("h264_nvenc"@),
        text::is_word("hevc_qsv"@),
        text::is_word("h264_qsv"@),
        text::is_word("libx265"@),
        text::is_word("libx264"@),
{
    reveal_strlit("hevc_nvenc");
    reveal_strlit("h264_nvenc");
    reveal_strlit("hevc_qsv");
    reveal_strlit("h264_qsv");
    reveal_strlit("libx265");
    reveal_strlit("libx264");
}

proof fn lemma_flag_literals()
    ensures
        text::is_word("-c:v"@),
        text::is_word("-pix_fmt"@),
        text::is_word("yuv420p"@),
        text::is_word("-b:v"@),
        text::is_word("-cq"@),
        text::is_word("-q"@),
        text::is_word("-crf"@),
        text::is_word("-quality"@),
        text::is_word("-preset"@),
{
    reveal_strlit("-c:v");
    reveal_strlit("-pix_fmt");
    reveal_strlit("yuv420p");
    reveal_strlit("-b:v");
    reveal_strlit("-cq");
    reveal_strlit("-q");
    reveal_strlit("-crf");
    reveal_strlit("-quality");
    reveal_strlit("-preset");
}

proof fn lemma_stream_literals()
    ensures
        text::is_word("-map"@),
        text::is_word("0:v:0"@),
        text::is_word("1:a:0"@),
        text::is_word("-ss"@),
        text::is_word("-vf"@),
        text::is_word("vflip"@),
        text::is_word("-f"@),
        text::is_word("mov"@),
        text::is_word("mp4"@),
{
    reveal_strlit("-map");
    reveal_strlit("0:v:0");
    reveal_strlit("1:a:0");
    reveal_strlit("-ss");
    reveal_strlit("-vf");
    reveal_strlit("vflip");
    reveal_strlit("-f");
    reveal_strlit("mov");
    reveal_strlit("mp4");
}

proof fn lemma_source_literals()
    ensures
        text::is_word("-probesize"@),
        text::is_word("50M"@),
        text::is_word("-y"@),
        text::is_word("rawvideo"@),
        text::is_word("-hwaccel_output_format"@),
        text::is_word("cuda"@),
        text::is_word("-s"@),
        text::is_word("-r"@),
        text::is_word("rgba"@),
        text::is_word("-thread_queue_size"@),
        text::is_word("1024"@),
        text::is_word("-i"@),
        text::is_word("-"@),
{
    reveal_strlit("-probesize");
    reveal_strlit("50M");
    reveal_strlit("-y");
    reveal_strlit("rawvideo");
    reveal_strlit("-hwaccel_output_format");
    reveal_strlit("cuda");
    reveal_strlit("-s");
    reveal_strlit("-r");
    reveal_strlit("rgba");
    reveal_strlit("-thread_queue_size");
    reveal_strlit("1024");
    reveal_strlit("-i");
    reveal_strlit("-");
}

proof fn lemma_mix_literals()
    ensures
        text::is_word("f32le"@),
        text::is_word("-ar"@),
        text::is_word("-ac"@),
        text::is_word("2"@),
        text::is_word("pcm_f32le"@),
        text::is_word("wav"@),
{
    reveal_strlit("f32le");
    reveal_strlit("-ar");
    reveal_strlit("-ac");
    reveal_strlit("2");
    reveal_strlit("pcm_f32le");
    reveal_strlit("wav");
}

/// Whether each of `parts` is one word.
pub open spec fn all_words(parts: Seq<Seq<char>>) -> bool {
    forall|i: int| 0 <= i < parts.len() ==> text::is_word(#[trigger] parts[i])
}

proof fn lemma_words_of_words(parts: Seq<Seq<char>>)
    requires
        all_words(parts),
    ensures
        words_of_all(parts) == parts,
    decreases parts.len(),
{
    if parts.len() > 0 {
        assert forall|i: int| 0 <= i < parts.drop_last().len() implies text::is_word(
            #[trigger] parts.drop_last()[i],
        ) by {
            assert(parts.drop_last()[i] == parts[i]);
        }
        lemma_words_of_words(parts.drop_last());
        text::lemma_words_of_word(parts.last());
        assert(parts.drop_last() + seq![parts.last()] =~= parts);
    } else {
        assert(parts =~= seq![]);
    }
}

proof fn lemma_words_of_concat(a: Seq<Seq<char>>, b: Seq<Seq<char>>)
    ensures
        words_of_all(a + b) == words_of_all(a) + words_of_all(b),
    decreases b.len(),
{
    if b.len() == 0 {
        assert(a + b =~= a);
        assert(words_of_all(a) + words_of_all(b) =~= words_of_all(a));
    } else {
        assert((a + b).drop_last() =~= a + b.drop_last());
        lemma_words_of_concat(a, b.drop_last());
        assert(words_of_all(a + b) =~= words_of_all(a) + words_of_all(b));
    }
}

proof fn lemma_words_of_one(part: Seq<char>)
    ensures
        words_of_all(seq![part]) == text::words(part),
{
    let parts = seq![part];
    assert(words_of_all(parts.drop_last()) =~= seq![]);
    assert(words_of_all(parts) =~= text::words(part));
}

/// The mixing arguments as one line.
pub open spec fn mix_line() -> Seq<char> {
    joined(mix_words())
}

/// The mixing arguments are the words of their line.
pub proof fn lemma_mix_line()
    ensures
        text::words(mix_line()) == mix_words(),
{
    lemma_mix_literals();
    lemma_source_literals();
    lemma_sound_literals();
    lemma_stream_literals();
    text::lemma_digits_are_a_word(SAMPLE_RATE as nat);
    assert(all_words(mix_words()));
    lemma_words_of_words(mix_words());
    lemma_words_of_joined(mix_words());
}

/// The arguments for the pictures as one line.
pub open spec fn source_line(width: u32, height: u32, fps: u32, nvenc: bool) -> Seq<char> {
    joined(source_words(width, height, fps, nvenc))
}

/// The arguments for the pictures are the words of their line.
pub proof fn lemma_source_line(width: u32, height: u32, fps: u32, nvenc: bool)
    ensures
        text::words(source_line(width, height, fps, nvenc)) == source_words(
            width,
            height,
            fps,
            nvenc,
        ),
{
    lemma_source_literals();
    lemma_flag_literals();
    lemma_stream_literals();
    text::lemma_digits_are_a_word(width as nat);
    text::lemma_digits_are_a_word(height as nat);
    text::lemma_digits_are_a_word(fps as nat);
    let size = size_text(width, height);
    assert(text::is_word(size)) by {
        assert forall|i: int| 0 <= i < size.len() implies !text::is_blank(#[trigger] size[i]) by {
            let w = text::digits(width as nat);
            let h = text::digits(height as nat);
            if i < w.len() {
                assert(size[i] == w[i]);
            } else if i > w.len() {
                assert(size[i] == h[i - w.len() - 1]);
            }
        }
    }
    let parts = source_words(width, height, fps, nvenc);
    assert(all_words(parts));
    lemma_words_of_words(parts);
    lemma_words_of_joined(parts);
}

/// The parts of the encoding line. The lead-in stands for itself; where there is none, an empty
/// part holds its place.
pub open spec fn sink_parts<S, D, C>(
    config: RenderConfig<S, D, C>,
    encoders: HardwareEncoders,
    preset: Seq<char>,
    lead_in: Seq<char>,
) -> Seq<Seq<char>> {
    sound_words(config.hires) + picture_words(
        encoders,
        config.hevc,
        config.bitrate_control@ == "CRF"@,
    ) + seq![config.bitrate@] + seq![encoders.preset_flag_text()] + seq![preset] + stream_words()
        + (if config.disable_loading {
        seq!["-ss"@] + seq![lead_in]
    } else {
        seq![seq![]]
    }) + container_words(config.hires)
}

/// The encoding arguments as one line.
pub open spec fn sink_line<S, D, C>(
    config: RenderConfig<S, D, C>,
    encoders: HardwareEncoders,
    preset: Seq<char>,
    lead_in: Seq<char>,
) -> Seq<char> {
    joined(sink_parts(config, encoders, preset, lead_in))
}

/// The encoding arguments are the words of their line.
pub proof fn lemma_sink_line<S, D, C>(
    config: RenderConfig<S, D, C>,
    encoders: HardwareEncoders,
    preset: Seq<char>,
    lead_in: Seq<char>,
)
    ensures
        text::words(sink_line(config, encoders, preset, lead_in)) == sink_words(
            config,
            encoders,
            preset,
            lead_in,
        ),
{
    let sound = sound_words(config.hires);
    let picture = picture_words(encoders, config.hevc, config.bitrate_control@ == "CRF"@);
    let rate = seq![config.bitrate@];
    let flag = seq![encoders.preset_flag_text()];
    let name = seq![preset];
    let streams = stream_words();
    let seek = if config.disable_loading {
        seq!["-ss"@] + seq![lead_in]
    } else {
        seq![seq![]]
    };
    let container = container_words(config.hires);
    assert(all_words(sound)) by {
        lemma_sound_literals();
    }
    assert(all_words(picture)) by {
        lemma_encoder_literals();
        lemma_flag_literals();
    }
    assert(all_words(flag)) by {
        lemma_flag_literals();
    }
    assert(all_words(streams) && all_words(container) && text::is_word("-ss"@)) by {
        lemma_stream_literals();
    }
    lemma_words_of_words(sound);
    lemma_words_of_words(picture);
    lemma_words_of_words(flag);
    lemma_words_of_words(streams);
    lemma_words_of_words(container);
    lemma_words_of_one(config.bitrate@);
    lemma_words_of_one(preset);
    assert(words_of_all(seek) == seek_words(config.disable_loading, lead_in)) by {
        if config.disable_loading {
            lemma_words_of_one("-ss"@);
            text::lemma_words_of_word("-ss"@);
            lemma_words_of_one(lead_in);
            lemma_words_of_concat(seq!["-ss"@], seq![lead_in]);
        } else {
            lemma_words_of_one(seq![]);
        }
    }
    lemma_words_of_concat(sound, picture);
    lemma_words_of_concat(sound + picture, rate);
    lemma_words_of_concat(sound + picture + rate, flag);
    lemma_words_of_concat(sound + picture + rate + flag, name);
    lemma_words_of_concat(sound + picture + rate + flag + name, streams);
    lemma_words_of_concat(sound + picture + rate + flag + name + streams, seek);
    lemma_words_of_concat(sound + picture + rate + flag + name + streams + seek, container);
    lemma_words_of_joined(sink_parts(config, encoders, preset, lead_in));
}

/// No argument that is handed to ffmpeg is empty or holds a blank.
pub proof fn lemma_arguments_are_words<S, D, C>(
    config: RenderConfig<S, D, C>,
    encoders: HardwareEncoders,
    preset: Seq<char>,
    lead_in: Seq<char>,
)
    ensures
        all_words(mix_words()),
        all_words(
            source_words(
                config.resolution.0,
                config.resolution.1,
                config.fps,
                encoders.nvenc,
            ),
        ),
        all_words(sink_words(config, encoders, preset, lead_in)),
{
    lemma_mix_line();
    text::lemma_words_are_words(mix_line());
    let (width, height) = config.resolution;
    lemma_source_line(width, height, config.fps, encoders.nvenc);
    text::lemma_words_are_words(source_line(width, height, config.fps, encoders.nvenc));
    lemma_sink_line(config, encoders, preset, lead_in);
    text::lemma_words_are_words(sink_line(config, encoders, preset, lead_in));
}

proof fn lemma_next_word(line: Seq<char>, word: Seq<char>)
    requires
        text::is_word(word),
    ensures
        text::words(line.push(' ') + word) == text::words(line).push(word),
{
    text::lemma_words_separated(line, ' ', word);
    text::lemma_words_of_word(word);
    assert(text::words(line) + seq![word] =~= text::words(line).push(word));
}

/// A part with a space on either side brings its own words between those of its neighbours.
proof fn lemma_words_between(before: Seq<char>, part: Seq<char>, after: Seq<char>)
    ensures
        text::words(before + (seq![' '] + part + seq![' ']) + after) == text::words(before)
            + text::words(part) + text::words(after),
{
    text::lemma_words_separated(before.push(' ') + part, ' ', after);
    text::lemma_words_separated(before, ' ', part);
    assert(before + (seq![' '] + part + seq![' ']) + after =~= (before.push(' ') + part).push(' ')
        + after);
}

proof fn lemma_aac_text()
    ensures
        text::words("aac -b:a 320k"@) == seq!["aac"@, "-b:a"@, "320k"@],
{
    lemma_sound_literals();
    let t0 = "aac"@;
    text::lemma_words_of_word(t0);
    let t1 = t0.push(' ') + "-b:a"@;
    lemma_next_word(t0, "-b:a"@);
    let t2 = t1.push(' ') + "320k"@;
    lemma_next_word(t1, "320k"@);
    assert("aac -b:a 320k"@ =~= t2) by {
        reveal_strlit("aac -b:a 320k");
        reveal_strlit("-b:a");
        reveal_strlit("320k");
        reveal_strlit("aac");
    }
    assert(text::words(t2) =~= seq!["aac"@, "-b:a"@, "320k"@]);
}

proof fn lemma_format_text()
    ensures
        text::words("-pix_fmt yuv420p"@) == seq!["-pix_fmt"@, "yuv420p"@],
{
    lemma_flag_literals();
    let t0 = "-pix_fmt"@;
    text::lemma_words_of_word(t0);
    let t1 = t0.push(' ') + "yuv420p"@;
    lemma_next_word(t0, "yuv420p"@);
    assert("-pix_fmt yuv420p"@ =~= t1) by {
        reveal_strlit("-pix_fmt yuv420p");
        reveal_strlit("-pix_fmt");
        reveal_strlit("yuv420p");
    }
    assert(text::words(t1) =~= seq!["-pix_fmt"@, "yuv420p"@]);
}

proof fn lemma_map_text()
    ensures
        text::words("-map 0:v:0 -map 1:a:0"@) == seq!["-map"@, "0:v:0"@, "-map"@, "1:a:0"@],
{
    lemma_stream_literals();
    let t0 = "-map"@;
    text::lemma_words_of_word(t0);
    let t1 = t0.push(' ') + "0:v:0"@;
    lemma_next_word(t0, "0:v:0"@);
    let t2 = t1.push(' ') + "-map"@;
    lemma_next_word(t1, "-map"@);
    let t3 = t2.push(' ') + "1:a:0"@;
    lemma_next_word(t2, "1:a:0"@);
    assert("-map 0:v:0 -map 1:a:0"@ =~= t3) by {
        reveal_strlit("-map 0:v:0 -map 1:a:0");
        reveal_strlit("-map");
        reveal_strlit("0:v:0");
        reveal_strlit("1:a:0");
    }
    assert(text::words(t3) =~= seq!["-map"@, "0:v:0"@, "-map"@, "1:a:0"@]);
}

proof fn lemma_flip_text()
    ensures
        text::words("-vf vflip -f"@) == seq!["-vf"@, "vflip"@, "-f"@],
{
    lemma_stream_literals();
    let t0 = "-vf"@;
    text::lemma_words_of_word(t0);
    let t1 = t0.push(' ') + "vflip"@;
    lemma_next_word(t0, "vflip"@);
    let t2 = t1.push(' ') + "-f"@;
    lemma_next_word(t1, "-f"@);
    assert("-vf vflip -f"@ =~= t2) by {
        reveal_strlit("-vf vflip -f");
        reveal_strlit("-f");
        reveal_strlit("-vf");
        reveal_strlit("vflip");
    }
    assert(text::words(t2) =~= seq!["-vf"@, "vflip"@, "-f"@]);
}

proof fn lemma_raw_text()
    ensures
        text::words("-probesize 50M -y -f rawvideo -c:v rawvideo"@) == seq!["-probesize"@, "50M"@, "-y"@, "-f"@, "rawvideo"@, "-c:v"@, "rawvideo"@],
{
    lemma_flag_literals();
    lemma_source_literals();
    lemma_stream_literals();
    let t0 = "-probesize"@;
    text::lemma_words_of_word(t0);
    let t1 = t0.push(' ') + "50M"@;
    lemma_next_word(t0, "50M"@);
    let t2 = t1.push(' ') + "-y"@;
    lemma_next_word(t1, "-y"@);
    let t3 = t2.push(' ') + "-f"@;
    lemma_next_word(t2, "-f"@);
    let t4 = t3.push(' ') + "rawvideo"@;
    lemma_next_word(t3, "rawvideo"@);
    let t5 = t4.push(' ') + "-c:v"@;
    lemma_next_word(t4, "-c:v"@);
    let t6 = t5.push(' ') + "rawvideo"@;
    lemma_next_word(t5, "rawvideo"@);
    assert("-probesize 50M -y -f rawvideo -c:v rawvideo"@ =~= t6) by {
        reveal_strlit("-probesize 50M -y -f rawvideo -c:v rawvideo");
        reveal_strlit("-c:v");
        reveal_strlit("-f");
        reveal_strlit("-probesize");
        reveal_strlit("-y");
        reveal_strlit("50M");
        reveal_strlit("rawvideo");
    }
    assert(text::words(t6) =~= seq!["-probesize"@, "50M"@, "-y"@, "-f"@, "rawvideo"@, "-c:v"@, "rawvideo"@]);
}

proof fn lemma_cuda_text()
    ensures
        text::words("-hwaccel_output_format cuda"@) == seq!["-hwaccel_output_format"@, "cuda"@],
{
    lemma_source_literals();
    let t0 = "-hwaccel_output_format"@;
    text::lemma_words_of_word(t0);
    let t1 = t0.push(' ') + "cuda"@;
    lemma_next_word(t0, "cuda"@);
    assert("-hwaccel_output_format cuda"@ =~= t1) by {
        reveal_strlit("-hwaccel_output_format cuda");
        reveal_strlit("-hwaccel_output_format");
        reveal_strlit("cuda");
    }
    assert(text::words(t1) =~= seq!["-hwaccel_output_format"@, "cuda"@]);
}

proof fn lemma_input_text()
    ensures
        text::words("-pix_fmt rgba -thread_queue_size 1024 -i - -i"@) == seq!["-pix_fmt"@, "rgba"@, "-thread_queue_size"@, "1024"@, "-i"@, "-"@, "-i"@],
{
    lemma_flag_literals();
    lemma_source_literals();
    let t0 = "-pix_fmt"@;
    text::lemma_words_of_word(t0);
    let t1 = t0.push(' ') + "rgba"@;
    lemma_next_word(t0, "rgba"@);
    let t2 = t1.push(' ') + "-thread_queue_size"@;
    lemma_next_word(t1, "-thread_queue_size"@);
    let t3 = t2.push(' ') + "1024"@;
    lemma_next_word(t2, "1024"@);
    let t4 = t3.push(' ') + "-i"@;
    lemma_next_word(t3, "-i"@);
    let t5 = t4.push(' ') + "-"@;
    lemma_next_word(t4, "-"@);
    let t6 = t5.push(' ') + "-i"@;
    lemma_next_word(t5, "-i"@);
    assert("-pix_fmt rgba -thread_queue_size 1024 -i - -i"@ =~= t6) by {
        reveal_strlit("-pix_fmt rgba -thread_queue_size 1024 -i - -i");
        reveal_strlit("-");
        reveal_strlit("-i");
        reveal_strlit("-pix_fmt");
        reveal_strlit("-thread_queue_size");
        reveal_strlit("1024");
        reveal_strlit("rgba");
    }
    assert(text::words(t6) =~= seq!["-pix_fmt"@, "rgba"@, "-thread_queue_size"@, "1024"@, "-i"@, "-"@, "-i"@]);
}

proof fn lemma_raw_samples_text()
    ensures
        text::words("-y -f f32le -ar"@) == seq!["-y"@, "-f"@, "f32le"@, "-ar"@],
{
    lemma_mix_literals();
    lemma_source_literals();
    lemma_stream_literals();
    let t0 = "-y"@;
    text::lemma_words_of_word(t0);
    let t1 = t0.push(' ') + "-f"@;
    lemma_next_word(t0, "-f"@);
    let t2 = t1.push(' ') + "f32le"@;
    lemma_next_word(t1, "f32le"@);
    let t3 = t2.push(' ') + "-ar"@;
    lemma_next_word(t2, "-ar"@);
    assert("-y -f f32le -ar"@ =~= t3) by {
        reveal_strlit("-y -f f32le -ar");
        reveal_strlit("-ar");
        reveal_strlit("-f");
        reveal_strlit("-y");
        reveal_strlit("f32le");
    }
    assert(text::words(t3) =~= seq!["-y"@, "-f"@, "f32le"@, "-ar"@]);
}

proof fn lemma_wav_text()
    ensures
        text::words("-ac 2 -i - -c:a pcm_f32le -f wav"@) == seq!["-ac"@, "2"@, "-i"@, "-"@, "-c:a"@, "pcm_f32le"@, "-f"@, "wav"@],
{
    lemma_mix_literals();
    lemma_sound_literals();
    lemma_source_literals();
    lemma_stream_literals();
    let t0 = "-ac"@;
    text::lemma_words_of_word(t0);
    let t1 = t0.push(' ') + "2"@;
    lemma_next_word(t0, "2"@);
    let t2 = t1.push(' ') + "-i"@;
    lemma_next_word(t1, "-i"@);
    let t3 = t2.push(' ') + "-"@;
    lemma_next_word(t2, "-"@);
    let t4 = t3.push(' ') + "-c:a"@;
    lemma_next_word(t3, "-c:a"@);
    let t5 = t4.push(' ') + "pcm_f32le"@;
    lemma_next_word(t4, "pcm_f32le"@);
    let t6 = t5.push(' ') + "-f"@;
    lemma_next_word(t5, "-f"@);
    let t7 = t6.push(' ') + "wav"@;
    lemma_next_word(t6, "wav"@);
    assert("-ac 2 -i - -c:a pcm_f32le -f wav"@ =~= t7) by {
        reveal_strlit("-ac 2 -i - -c:a pcm_f32le -f wav");
        reveal_strlit("-");
        reveal_strlit("-ac");
        reveal_strlit("-c:a");
        reveal_strlit("-f");
        reveal_strlit("-i");
        reveal_strlit("2");
        reveal_strlit("pcm_f32le");
        reveal_strlit("wav");
    }
    assert(text::words(t7) =~= seq!["-ac"@, "2"@, "-i"@, "-"@, "-c:a"@, "pcm_f32le"@, "-f"@, "wav"@]);
}

/// The part of the encoding line that says how sound and picture are made.
proof fn lemma_sink_front(
    encoders: HardwareEncoders,
    hires: bool,
    hevc: bool,
    constant_quality: bool,
)
    ensures
        text::words(
            "-c:a "@ + (if hires {
                "copy"@
            } else {
                "aac -b:a 320k"@
            }) + " -c:v "@ + encoders.encoder_name(hevc) + " -pix_fmt yuv420p "@
                + encoders.rate_flag_text(constant_quality),
        ) == sound_words(hires) + picture_words(encoders, hevc, constant_quality),
{
    let sound = if hires {
        "copy"@
    } else {
        "aac -b:a 320k"@
    };
    let name = encoders.encoder_name(hevc);
    let rate = encoders.rate_flag_text(constant_quality);
    lemma_sound_literals();
    lemma_encoder_literals();
    lemma_flag_literals();
    lemma_aac_text();
    lemma_format_text();
    text::lemma_words_of_word("copy"@);
    text::lemma_words_of_word("-c:v"@);
    text::lemma_words_of_word("-c:a"@);
    text::lemma_words_of_word(name);
    text::lemma_words_of_word(rate);
    assert("-c:a "@ =~= "-c:a"@.push(' ')) by {
        reveal_strlit("-c:a ");
        reveal_strlit("-c:a");
    }
    assert(" -c:v "@ =~= seq![' '] + "-c:v"@ + seq![' ']) by {
        reveal_strlit(" -c:v ");
        reveal_strlit("-c:v");
    }
    assert(" -pix_fmt yuv420p "@ =~= seq![' '] + "-pix_fmt yuv420p"@ + seq![' ']) by {
        reveal_strlit(" -pix_fmt yuv420p ");
        reveal_strlit("-pix_fmt yuv420p");
    }
    let t1 = "-c:a "@ + sound;
    text::lemma_words_separated("-c:a"@, ' ', sound);
    let t2 = t1 + " -c:v "@ + name;
    lemma_words_between(t1, "-c:v"@, name);
    let t3 = t2 + " -pix_fmt yuv420p "@ + rate;
    lemma_words_between(t2, "-pix_fmt yuv420p"@, rate);
    assert(text::words(t1) =~= sound_words(hires));
    assert(text::words(t3) =~= sound_words(hires) + picture_words(
        encoders,
        hevc,
        constant_quality,
    ));
}

/// The part of the encoding line that gives rate and preset.
proof fn lemma_sink_middle(
    front: Seq<char>,
    bitrate: Seq<char>,
    flag: Seq<char>,
    preset: Seq<char>,
)
    requires
        text::is_word(flag),
    ensures
        text::words(front + " "@ + bitrate + " "@ + flag + " "@ + preset) == text::words(front)
            + text::words(bitrate) + seq![flag] + text::words(preset),
{
    assert(" "@ =~= seq![' ']) by {
        reveal_strlit(" ");
    }
    text::lemma_words_of_word(flag);
    let t4 = front + " "@ + bitrate;
    assert(t4 =~= front.push(' ') + bitrate);
    text::lemma_words_separated(front, ' ', bitrate);
    let t5 = t4 + " "@ + flag;
    assert(t5 =~= t4.push(' ') + flag);
    text::lemma_words_separated(t4, ' ', flag);
    let t6 = t5 + " "@ + preset;
    assert(t6 =~= t5.push(' ') + preset);
    text::lemma_words_separated(t5, ' ', preset);
}

/// The part of the encoding line that says which streams are taken, from where on, and into what
/// file.
proof fn lemma_sink_back(front: Seq<char>, disable_loading: bool, lead_in: Seq<char>, hires: bool)
    ensures
        text::words(
            front + " -map 0:v:0 -map 1:a:0 "@ + (if disable_loading {
                "-ss "@ + lead_in
            } else {
                seq![]
            }) + " -vf vflip -f "@ + (if hires {
                "mov"@
            } else {
                "mp4"@
            }),
        ) == text::words(front) + stream_words() + seek_words(disable_loading, lead_in)
            + container_words(hires),
{
    let seek = if disable_loading {
        "-ss "@ + lead_in
    } else {
        seq![]
    };
    let container = if hires {
        "mov"@
    } else {
        "mp4"@
    };
    lemma_stream_literals();
    lemma_map_text();
    lemma_flip_text();
    text::lemma_words_of_word("mov"@);
    text::lemma_words_of_word("mp4"@);
    text::lemma_words_of_word("-ss"@);
    assert("-ss "@ =~= "-ss"@.push(' ')) by {
        reveal_strlit("-ss ");
        reveal_strlit("-ss");
    }
    assert(" -map 0:v:0 -map 1:a:0 "@ =~= seq![' '] + "-map 0:v:0 -map 1:a:0"@ + seq![' ']) by {
        reveal_strlit(" -map 0:v:0 -map 1:a:0 ");
        reveal_strlit("-map 0:v:0 -map 1:a:0");
    }
    assert(" -vf vflip -f "@ =~= seq![' '] + "-vf vflip -f"@ + seq![' ']) by {
        reveal_strlit(" -vf vflip -f ");
        reveal_strlit("-vf vflip -f");
    }
    let t7 = front + " -map 0:v:0 -map 1:a:0 "@ + seek;
    lemma_words_between(front, "-map 0:v:0 -map 1:a:0"@, seek);
    let t8 = t7 + " -vf vflip -f "@ + container;
    lemma_words_between(t7, "-vf vflip -f"@, container);
    assert(text::words(seek) =~= seek_words(disable_loading, lead_in)) by {
        text::lemma_words_separated("-ss"@, ' ', lead_in);
    }
    assert(text::words("-map 0:v:0 -map 1:a:0"@) =~= stream_words());
    assert(text::words("-vf vflip -f"@) + text::words(container) =~= container_words(hires));
    assert(text::words(t8) =~= text::words(t7) + container_words(hires));
}

/// The encoding arguments, as a person would write them on one line: split at its blanks, the
/// line is what is handed to ffmpeg, for all options. The encoder is the one for the options' own
/// choice of HEVC, the rate is a quality exactly if the rate control is `CRF`, and the lead-in is
/// cut off exactly if the loading scene is left out.
pub proof fn lemma_sink_words_in_full<S, D, C>(
    config: RenderConfig<S, D, C>,
    encoders: HardwareEncoders,
    preset: Seq<char>,
    lead_in: Seq<char>,
)
    ensures
        sink_words(config, encoders, preset, lead_in) == text::words(
            "-c:a "@ + (if config.hires {
                "copy"@
            } else {
                "aac -b:a 320k"@
            }) + " -c:v "@ + encoders.encoder_name(config.hevc) + " -pix_fmt yuv420p "@ + (
            if config.bitrate_control@ == "CRF"@ {
                encoders.rate_flag_text(true)
            } else {
                "-b:v"@
            }) + " "@ + config.bitrate@ + " "@ + (if encoders.amf && !encoders.nvenc
                && !encoders.qsv {
                "-quality"@
            } else {
                "-preset"@
            }) + " "@ + preset + " -map 0:v:0 -map 1:a:0 "@ + (if config.disable_loading {
                "-ss "@ + lead_in
            } else {
                seq![]
            }) + " -vf vflip -f "@ + (if config.hires {
                "mov"@
            } else {
                "mp4"@
            }),
        ),
{
    let quality = config.bitrate_control@ == "CRF"@;
    let flag = encoders.preset_flag_text();
    crate::encoder::lemma_rate_is_announced_as_asked(encoders);
    crate::encoder::lemma_preset_of_each_maker(encoders);
    assert(text::is_word(flag)) by {
        lemma_flag_literals();
    }
    let sound = if config.hires {
        "copy"@
    } else {
        "aac -b:a 320k"@
    };
    let front = "-c:a "@ + sound + " -c:v "@ + encoders.encoder_name(config.hevc)
        + " -pix_fmt yuv420p "@ + encoders.rate_flag_text(quality);
    lemma_sink_front(encoders, config.hires, config.hevc, quality);
    let middle = front + " "@ + config.bitrate@ + " "@ + flag + " "@ + preset;
    lemma_sink_middle(front, config.bitrate@, flag, preset);
    lemma_sink_back(middle, config.disable_loading, lead_in, config.hires);
}

/// The word behind `-c:v` is the encoder for the options' own choice of HEVC; without
/// acceleration that is x265 where HEVC is asked for, and x264 where it is not.
pub proof fn lemma_encoder_follows_its_flag<S, D, C>(
    config: RenderConfig<S, D, C>,
    encoders: HardwareEncoders,
    preset: Seq<char>,
    lead_in: Seq<char>,
)
    ensures
        ({
            let words = sink_words(config, encoders, preset, lead_in);
            let at: int = if config.hires {
                2
            } else {
                4
            };
            &&& words.len() > at + 4
            &&& words[at] == "-c:v"@
            &&& words[at + 1] == encoders.encoder_name(config.hevc)
            &&& !encoders.nvenc && !encoders.nvenc_hevc && !encoders.qsv && !encoders.qsv_hevc
                ==> words[at + 1] == if config.hevc {
                "libx265"@
            } else {
                "libx264"@
            }
            &&& config.bitrate_control@ != "CRF"@ ==> words[at + 4] == "-b:v"@
            &&& config.bitrate_control@ == "CRF"@ ==> words[at + 4] == encoders.rate_flag_text(
                true,
            )
        }),
{
}

/// The arguments for the pictures, as a person would write them on one line: split at its
/// blanks, the line is what is handed to ffmpeg, for all sizes and rates.
pub proof fn lemma_source_words_in_full(width: u32, height: u32, fps: u32, nvenc: bool)
    ensures
        source_words(width, height, fps, nvenc) == text::words(
            "-probesize 50M -y -f rawvideo -c:v rawvideo"@ + (if nvenc {
                " -hwaccel_output_format cuda"@
            } else {
                seq![]
            }) + " -s "@ + text::digits(width as nat) + "x"@ + text::digits(height as nat)
                + " -r "@ + text::digits(fps as nat)
                + " -pix_fmt rgba -thread_queue_size 1024 -i - -i"@,
        ),
{
    let raw = "-probesize 50M -y -f rawvideo -c:v rawvideo"@;
    let cuda = if nvenc {
        " -hwaccel_output_format cuda"@
    } else {
        seq![]
    };
    let w = text::digits(width as nat);
    let h = text::digits(height as nat);
    let f = text::digits(fps as nat);
    let size = size_text(width, height);
    let input = " -pix_fmt rgba -thread_queue_size 1024 -i - -i"@;
    lemma_source_literals();
    lemma_raw_text();
    lemma_cuda_text();
    lemma_input_text();
    text::lemma_digits_are_a_word(width as nat);
    text::lemma_digits_are_a_word(height as nat);
    text::lemma_digits_are_a_word(fps as nat);
    text::lemma_words_of_word(f);
    text::lemma_words_of_word("-s"@);
    text::lemma_words_of_word("-r"@);
    assert("x"@ =~= seq!['x']) by {
        reveal_strlit("x");
    }
    assert(size =~= w + "x"@ + h);
    assert(text::is_word(size)) by {
        assert forall|i: int| 0 <= i < size.len() implies !text::is_blank(#[trigger] size[i]) by {
            if i < w.len() {
                assert(size[i] == w[i]);
            } else if i > w.len() {
                assert(size[i] == h[i - w.len() - 1]);
            }
        }
    }
    text::lemma_words_of_word(size);
    assert(" -s "@ =~= seq![' '] + "-s"@ + seq![' ']) by {
        reveal_strlit(" -s ");
        reveal_strlit("-s");
    }
    assert(" -r "@ =~= seq![' '] + "-r"@ + seq![' ']) by {
        reveal_strlit(" -r ");
        reveal_strlit("-r");
    }
    assert(" -hwaccel_output_format cuda"@ =~= seq![' '] + "-hwaccel_output_format cuda"@) by {
        reveal_strlit(" -hwaccel_output_format cuda");
        reveal_strlit("-hwaccel_output_format cuda");
    }
    assert(input =~= seq![' '] + "-pix_fmt rgba -thread_queue_size 1024 -i - -i"@) by {
        reveal_strlit(" -pix_fmt rgba -thread_queue_size 1024 -i - -i");
        reveal_strlit("-pix_fmt rgba -thread_queue_size 1024 -i - -i");
    }
    let t1 = raw + cuda;
    assert(text::words(t1) =~= text::words(raw) + (if nvenc {
        seq!["-hwaccel_output_format"@, "cuda"@]
    } else {
        seq![]
    })) by {
        if nvenc {
            assert(t1 =~= raw.push(' ') + "-hwaccel_output_format cuda"@);
            text::lemma_words_separated(raw, ' ', "-hwaccel_output_format cuda"@);
        } else {
            assert(t1 =~= raw);
        }
    }
    let t2 = t1 + " -s "@ + size;
    lemma_words_between(t1, "-s"@, size);
    let t3 = t2 + " -r "@ + f;
    lemma_words_between(t2, "-r"@, f);
    let t4 = t3 + input;
    assert(t4 =~= t3.push(' ') + "-pix_fmt rgba -thread_queue_size 1024 -i - -i"@);
    text::lemma_words_separated(t3, ' ', "-pix_fmt rgba -thread_queue_size 1024 -i - -i"@);
    assert(t1 + " -s "@ + w + "x"@ + h =~= t2);
    assert(text::words(t4) =~= source_words(width, height, fps, nvenc));
}

/// The mixing arguments, as a person would write them on one line.
pub proof fn lemma_mix_words_in_full()
    ensures
        mix_words() == text::words(
            "-y -f f32le -ar "@ + text::digits(48000) + " -ac 2 -i - -c:a pcm_f32le -f wav"@,
        ),
{
    let rate = text::digits(48000);
    let rest = " -ac 2 -i - -c:a pcm_f32le -f wav"@;
    text::lemma_digits_are_a_word(48000);
    text::lemma_words_of_word(rate);
    lemma_raw_samples_text();
    lemma_wav_text();
    assert("-y -f f32le -ar "@ =~= "-y -f f32le -ar"@.push(' ')) by {
        reveal_strlit("-y -f f32le -ar ");
        reveal_strlit("-y -f f32le -ar");
    }
    assert(rest =~= seq![' '] + "-ac 2 -i - -c:a pcm_f32le -f wav"@) by {
        reveal_strlit(" -ac 2 -i - -c:a pcm_f32le -f wav");
        reveal_strlit("-ac 2 -i - -c:a pcm_f32le -f wav");
    }
    let t1 = "-y -f f32le -ar "@ + rate;
    text::lemma_words_separated("-y -f f32le -ar"@, ' ', rate);
    assert(t1 + rest =~= t1.push(' ') + "-ac 2 -i - -c:a pcm_f32le -f wav"@);
    text::lemma_words_separated(t1, ' ', "-ac 2 -i - -c:a pcm_f32le -f wav"@);
    assert(text::words(t1 + rest) =~= mix_words());
}

/// What is handed to ffmpeg for the encoding. The word behind `-c:v` is the encoder that
/// `encoder` names for the options' own choice of HEVC; the flag in front of the bit rate is the
/// one that `rate_flag` names, for a constant quality exactly if the rate control is `CRF`; and
/// the words of the bit rate and of the preset follow their flags.
pub proof fn lemma_encoding_arguments<S, D, C>(
    config: RenderConfig<S, D, C>,
    encoders: HardwareEncoders,
    preset: &str,
    lead_in: &str,
    r: Vec<String>,
    name: &'static str,
    rate: &'static str,
    flag: &'static str,
)
    requires
        call_ensures(sink_args::<S, D, C>, (&config, &encoders, preset, lead_in), r),
        call_ensures(HardwareEncoders::encoder, (&encoders, config.hevc), name),
        call_ensures(
            HardwareEncoders::rate_flag,
            (&encoders, config.bitrate_control@ == "CRF"@),
            rate,
        ),
        call_ensures(HardwareEncoders::preset_flag, (&encoders,), flag),
    ensures
        ({
            let args = r.deep_view();
            let at: int = if config.hires {
                2
            } else {
                4
            };
            let bitrate = text::words(config.bitrate@);
            let after = at + 5 + bitrate.len();
            &&& args[at] == "-c:v"@
            &&& args[at + 1] == name@
            &&& args[at + 4] == rate@
            &&& config.bitrate_control@ != "CRF"@ ==> args[at + 4] == "-b:v"@
            &&& args.subrange(at + 5, after) == bitrate
            &&& args[after] == flag@
            &&& args.subrange(after + 1, after + 1 + text::words(preset@).len()) == text::words(
                preset@,
            )
            &&& args.last() == if config.hires {
                "mov"@
            } else {
                "mp4"@
            }
        }),
{
    let args = r.deep_view();
    let at: int = if config.hires {
        2
    } else {
        4
    };
    let bitrate = text::words(config.bitrate@);
    let after = at + 5 + bitrate.len();
    let names = text::words(preset@);
    lemma_encoder_follows_its_flag(config, encoders, preset@, lead_in@);
    assert(args == sink_words(config, encoders, preset@, lead_in@));
    assert(args.subrange(at + 5, after) =~= bitrate);
    assert(args[after] == flag@);
    assert(args.subrange(after + 1, after + 1 + names.len()) =~= names);
}

/// What is handed to ffmpeg for the pictures names the size and the rate that were asked for.
pub proof fn lemma_picture_arguments<S, D, C>(
    config: RenderConfig<S, D, C>,
    encoders: HardwareEncoders,
    r: Vec<String>,
)
    requires
        call_ensures(source_args::<S, D, C>, (&config, &encoders), r),
    ensures
        r.deep_view() == text::words(
            "-probesize 50M -y -f rawvideo -c:v rawvideo"@ + (if encoders.nvenc {
                " -hwaccel_output_format cuda"@
            } else {
                seq![]
            }) + " -s "@ + text::digits(config.resolution.0 as nat) + "x"@ + text::digits(
                config.resolution.1 as nat,
            ) + " -r "@ + text::digits(config.fps as nat)
                + " -pix_fmt rgba -thread_queue_size 1024 -i - -i"@,
        ),
{
    lemma_source_words_in_full(
        config.resolution.0,
        config.resolution.1,
        config.fps,
        encoders.nvenc,
    );
}

} // verus!
