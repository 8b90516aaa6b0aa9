//! What a rendering is asked for, and the player configuration that follows from it.
//!
//! Real numbers are carried, not computed with: `S` stands for the single precision and `D` for
//! the double precision numbers of the host. `C` is the host's colour of a challenge badge and
//! `I` its description of a chart.

use vstd::prelude::*;

verus! {

/// The options of one rendering.
pub struct RenderConfig<S, D, C> {
    pub resolution: (u32, u32),
    pub ffmpeg_preset: String,
    pub ending_length: D,
    pub disable_loading: bool,
    pub hires: bool,
    pub chart_debug: bool,
    pub chart_ratio: S,
    pub all_good: bool,
    pub fps: u32,
    pub hardware_accel: bool,
    pub hevc: bool,
    pub bitrate_control: String,
    pub bitrate: String,
    pub aggressive: bool,
    pub challenge_color: C,
    pub challenge_rank: u32,
    pub disable_effect: bool,
    pub double_hint: bool,
    pub fxaa: bool,
    pub note_scale: S,
    pub particle: bool,
    pub player_avatar: Option<String>,
    pub player_name: String,
    pub player_rks: S,
    pub sample_count: u32,
    pub res_pack_path: Option<String>,
    pub speed: S,
    pub volume_music: S,
    pub volume_sfx: S,
    pub compression_ratio: S,
    pub force_limit: bool,
    pub limit_threshold: S,
    pub watermark: String,
    pub roman: bool,
    pub chinese: bool,
    pub combo: String,
    pub difficulty: String,
    pub phira_mode: bool,
    pub judge_offset: S,
}

/// A rendering request: the chart, its description and the options.
pub struct RenderParams<S, D, C, I> {
    pub path: String,
    pub info: I,
    pub config: RenderConfig<S, D, C>,
}

/// The part of the player's configuration that a rendering decides. What is not listed here
/// keeps the player's default.
pub struct Config<S, C> {
    pub aggressive: bool,
    /// Whether the player plays by itself; no other modifier is ever set.
    pub autoplay: bool,
    pub challenge_color: C,
    pub challenge_rank: u32,
    pub disable_effect: bool,
    pub disable_loading: bool,
    pub hires: bool,
    pub double_hint: bool,
    pub fxaa: bool,
    pub note_scale: S,
    pub particle: bool,
    pub player_name: String,
    pub player_rks: S,
    pub sample_count: u32,
    pub res_pack_path: Option<String>,
    pub speed: S,
    pub volume_music: S,
    pub volume_sfx: S,
    pub chart_debug: bool,
    pub chart_ratio: S,
    pub all_good: bool,
    pub watermark: String,
    pub roman: bool,
    pub chinese: bool,
    pub combo: String,
    pub difficulty: String,
    pub phira_mode: bool,
    pub disable_audio: bool,
    pub judge_offset: S,
}

/// The configuration that drives a rendering, with the volumes that were taken out of it.
pub struct Offline<S, C> {
    pub config: Config<S, C>,
    pub volume_music: S,
    pub volume_sfx: S,
}

/// How the hit sounds are treated before they join the music.
#[derive(Clone, Copy, PartialEq, Eq, Debug, Structural)]
pub enum Dynamics {
    /// Every sample is clamped to the limit.
    Limit,
    /// Loud samples are compressed.
    Compress,
    /// The samples stay as they are.
    Untouched,
}

impl<S, D, C> RenderConfig<S, D, C> {
    /// `config` says what these options ask of the player: audio on and no modifier, and every
    /// shared option as it is here.
    pub open spec fn configures(self, config: Config<S, C>) -> bool {
        &&& config.aggressive == self.aggressive
        &&& !config.autoplay
        &&& config.challenge_color == self.challenge_color
        &&& config.challenge_rank == self.challenge_rank
        &&& config.disable_effect == self.disable_effect
        &&& config.disable_loading == self.disable_loading
        &&& config.hires == self.hires
        &&& config.double_hint == self.double_hint
        &&& config.fxaa == self.fxaa
        &&& config.note_scale == self.note_scale
        &&& config.particle == self.particle
        &&& config.player_name@ == self.player_name@
        &&& config.player_rks == self.player_rks
        &&& config.sample_count == self.sample_count
        &&& config.res_pack_path.deep_view() == self.res_pack_path.deep_view()
        &&& config.speed == self.speed
        &&& config.volume_music == self.volume_music
        &&& config.volume_sfx == self.volume_sfx
        &&& config.chart_debug == self.chart_debug
        &&& config.chart_ratio == self.chart_ratio
        &&& config.all_good == self.all_good
        &&& config.watermark@ == self.watermark@
        &&& config.roman == self.roman
        &&& config.chinese == self.chinese
        &&& config.combo@ == self.combo@
        &&& config.difficulty@ == self.difficulty@
        &&& config.phira_mode == self.phira_mode
        &&& !config.disable_audio
        &&& config.judge_offset == self.judge_offset
    }
}

impl<S: Copy, D: Copy, C: Copy> RenderConfig<S, D, C> {
    /// The player configuration that these options ask for.
    pub fn to_config(&self) -> (config: Config<S, C>)
        ensures
            self.configures(config),
    {
        Config {
            aggressive: self.aggressive,
            autoplay: false,
            challenge_color: self.challenge_color,
            challenge_rank: self.challenge_rank,
            disable_effect: self.disable_effect,
            disable_loading: self.disable_loading,
            hires: self.hires,
            double_hint: self.double_hint,
            fxaa: self.fxaa,
            note_scale: self.note_scale,
            particle: self.particle,
            player_name: self.player_name.clone(),
            player_rks: self.player_rks,
            sample_count: self.sample_count,
            res_pack_path: self.res_pack_path.clone(),
            speed: self.speed,
            volume_music: self.volume_music,
            volume_sfx: self.volume_sfx,
            chart_debug: self.chart_debug,
            chart_ratio: self.chart_ratio,
            all_good: self.all_good,
            watermark: self.watermark.clone(),
            roman: self.roman,
            chinese: self.chinese,
            combo: self.combo.clone(),
            difficulty: self.difficulty.clone(),
            phira_mode: self.phira_mode,
            disable_audio: false,
            judge_offset: self.judge_offset,
        }
    }

    /// The time before the chart's own clock starts: `before` alone where the loading scene is
    /// left out, else `with_loading`, which counts that scene too.
    pub fn lead_in(&self, before: D, with_loading: D) -> (r: D)
        ensures
            r == if self.disable_loading {
                before
            } else {
                with_loading
            },
    {
        if self.disable_loading {
            before
        } else {
            with_loading
        }
    }

    /// Whether the loading scene is on screen, given whether the clock is still inside it.
    pub fn shows_loading(&self, inside_loading_time: bool) -> (r: bool)
        ensures
            r == (inside_loading_time && !self.disable_loading),
    {
        inside_loading_time && !self.disable_loading
    }

    /// How the hit sounds are treated, given whether the compression ratio exceeds one. A limit
    /// takes precedence over compression.
    pub fn dynamics(&self, ratio_exceeds_one: bool) -> (r: Dynamics)
        ensures
            r == if self.force_limit {
                Dynamics::Limit
            } else if ratio_exceeds_one {
                Dynamics::Compress
            } else {
                Dynamics::Untouched
            },
    {
        if self.force_limit {
            Dynamics::Limit
        } else if ratio_exceeds_one {
            Dynamics::Compress
        } else {
            Dynamics::Untouched
        }
    }
}

impl<S: Copy, C> Config<S, C> {
    /// Prepares the player for rendering: it plays by itself and makes no sound of its own. The
    /// two volumes are handed out and `silence` takes their place.
    pub fn into_offline(self, silence: S) -> (r: Offline<S, C>)
        ensures
            r.volume_music == self.volume_music,
            r.volume_sfx == self.volume_sfx,
            r.config == (Config {
                autoplay: true,
                disable_audio: true,
                volume_music: silence,
                volume_sfx: silence,
                ..self
            }),
    {
        Offline {
            volume_music: self.volume_music,
            volume_sfx: self.volume_sfx,
            config: Config {
                autoplay: true,
                disable_audio: true,
                volume_music: silence,
                volume_sfx: silence,
                ..self
            },
        }
    }
}

impl<S, D, C> RenderConfig<S, D, C> {
    /// Whether two requests agree on every option that the player shares. How the video is
    /// encoded, how the sound is treated, and the avatar do not count.
    pub open spec fn agrees(self, other: Self) -> bool {
        &&& self.aggressive == other.aggressive
        &&& self.challenge_color == other.challenge_color
        &&& self.challenge_rank == other.challenge_rank
        &&& self.disable_effect == other.disable_effect
        &&& self.disable_loading == other.disable_loading
        &&& self.hires == other.hires
        &&& self.double_hint == other.double_hint
        &&& self.fxaa == other.fxaa
        &&& self.note_scale == other.note_scale
        &&& self.particle == other.particle
        &&& self.player_name@ == other.player_name@
        &&& self.player_rks == other.player_rks
        &&& self.sample_count == other.sample_count
        &&& self.res_pack_path.deep_view() == other.res_pack_path.deep_view()
        &&& self.speed == other.speed
        &&& self.volume_music == other.volume_music
        &&& self.volume_sfx == other.volume_sfx
        &&& self.chart_debug == other.chart_debug
        &&& self.chart_ratio == other.chart_ratio
        &&& self.all_good == other.all_good
        &&& self.watermark@ == other.watermark@
        &&& self.roman == other.roman
        &&& self.chinese == other.chinese
        &&& self.combo@ == other.combo@
        &&& self.difficulty@ == other.difficulty@
        &&& self.phira_mode == other.phira_mode
        &&& self.judge_offset == other.judge_offset
    }
}

impl<S, C> Config<S, C> {
    /// Whether two configurations are the same, field by field.
    pub open spec fn same(self, other: Self) -> bool {
        &&& self.autoplay == other.autoplay
        &&& self.disable_audio == other.disable_audio
        &&& self.aggressive == other.aggressive
        &&& self.challenge_color == other.challenge_color
        &&& self.challenge_rank == other.challenge_rank
        &&& self.disable_effect == other.disable_effect
        &&& self.disable_loading == other.disable_loading
        &&& self.hires == other.hires
        &&& self.double_hint == other.double_hint
        &&& self.fxaa == other.fxaa
        &&& self.note_scale == other.note_scale
        &&& self.particle == other.particle
        &&& self.player_name@ == other.player_name@
        &&& self.player_rks == other.player_rks
        &&& self.sample_count == other.sample_count
        &&& self.res_pack_path.deep_view() == other.res_pack_path.deep_view()
        &&& self.speed == other.speed
        &&& self.volume_music == other.volume_music
        &&& self.volume_sfx == other.volume_sfx
        &&& self.chart_debug == other.chart_debug
        &&& self.chart_ratio == other.chart_ratio
        &&& self.all_good == other.all_good
        &&& self.watermark@ == other.watermark@
        &&& self.roman == other.roman
        &&& self.chinese == other.chinese
        &&& self.combo@ == other.combo@
        &&& self.difficulty@ == other.difficulty@
        &&& self.phira_mode == other.phira_mode
        &&& self.judge_offset == other.judge_offset
    }
}

/// Encoder, mixing and avatar settings do not reach the player: requests that agree on the
/// options that it shares configure it in the same way.
pub proof fn lemma_only_shared_options_matter<S, D, C>(
    a: RenderConfig<S, D, C>,
    b: RenderConfig<S, D, C>,
    ra: Config<S, C>,
    rb: Config<S, C>,
)
    requires
        a.agrees(b),
        a.configures(ra),
        b.configures(rb),
    ensures
        ra.same(rb),
{
}

/// Each shared option reaches the field of its name and no other: two configurations differ in a
/// field exactly if the requests differ in the option of that name, and never in the two fields
/// that no option sets.
pub proof fn lemma_each_option_reaches_its_field<S, D, C>(
    a: RenderConfig<S, D, C>,
    b: RenderConfig<S, D, C>,
    ra: Config<S, C>,
    rb: Config<S, C>,
)
    requires
        a.configures(ra),
        b.configures(rb),
    ensures
        ra.autoplay == rb.autoplay,
        ra.disable_audio == rb.disable_audio,
        (ra.aggressive == rb.aggressive) == (a.aggressive == b.aggressive),
        (ra.challenge_color == rb.challenge_color) == (a.challenge_color == b.challenge_color),
        (ra.challenge_rank == rb.challenge_rank) == (a.challenge_rank == b.challenge_rank),
        (ra.disable_effect == rb.disable_effect) == (a.disable_effect == b.disable_effect),
        (ra.disable_loading == rb.disable_loading) == (a.disable_loading == b.disable_loading),
        (ra.hires == rb.hires) == (a.hires == b.hires),
        (ra.double_hint == rb.double_hint) == (a.double_hint == b.double_hint),
        (ra.fxaa == rb.fxaa) == (a.fxaa == b.fxaa),
        (ra.note_scale == rb.note_scale) == (a.note_scale == b.note_scale),
        (ra.particle == rb.particle) == (a.particle == b.particle),
        (ra.player_name@ == rb.player_name@) == (a.player_name@ == b.player_name@),
        (ra.player_rks == rb.player_rks) == (a.player_rks == b.player_rks),
        (ra.sample_count == rb.sample_count) == (a.sample_count == b.sample_count),
        (ra.res_pack_path.deep_view() == rb.res_pack_path.deep_view()) == (a.res_pack_path.deep_view() == b.res_pack_path.deep_view()),
        (ra.speed == rb.speed) == (a.speed == b.speed),
        (ra.volume_music == rb.volume_music) == (a.volume_music == b.volume_music),
        (ra.volume_sfx == rb.volume_sfx) == (a.volume_sfx == b.volume_sfx),
        (ra.chart_debug == rb.chart_debug) == (a.chart_debug == b.chart_debug),
        (ra.chart_ratio == rb.chart_ratio) == (a.chart_ratio == b.chart_ratio),
        (ra.all_good == rb.all_good) == (a.all_good == b.all_good),
        (ra.watermark@ == rb.watermark@) == (a.watermark@ == b.watermark@),
        (ra.roman == rb.roman) == (a.roman == b.roman),
        (ra.chinese == rb.chinese) == (a.chinese == b.chinese),
        (ra.combo@ == rb.combo@) == (a.combo@ == b.combo@),
        (ra.difficulty@ == rb.difficulty@) == (a.difficulty@ == b.difficulty@),
        (ra.phira_mode == rb.phira_mode) == (a.phira_mode == b.phira_mode),
        (ra.judge_offset == rb.judge_offset) == (a.judge_offset == b.judge_offset),
{
}

/// Nothing is changed on the way to the player: every shared option arrives as it was asked for,
/// and the player is left to make sound and is not set to play by itself.
pub proof fn lemma_options_arrive_unchanged<S, D, C>(a: RenderConfig<S, D, C>, r: Config<S, C>)
    requires
        a.configures(r),
    ensures
        !r.autoplay && !r.disable_audio,
        r.aggressive == a.aggressive,
        r.challenge_color == a.challenge_color,
        r.challenge_rank == a.challenge_rank,
        r.disable_effect == a.disable_effect,
        r.disable_loading == a.disable_loading,
        r.hires == a.hires,
        r.double_hint == a.double_hint,
        r.fxaa == a.fxaa,
        r.note_scale == a.note_scale,
        r.particle == a.particle,
        r.player_name@ == a.player_name@,
        r.player_rks == a.player_rks,
        r.sample_count == a.sample_count,
        r.res_pack_path.deep_view() == a.res_pack_path.deep_view(),
        r.speed == a.speed,
        r.volume_music == a.volume_music,
        r.volume_sfx == a.volume_sfx,
        r.chart_debug == a.chart_debug,
        r.chart_ratio == a.chart_ratio,
        r.all_good == a.all_good,
        r.watermark@ == a.watermark@,
        r.roman == a.roman,
        r.chinese == a.chinese,
        r.combo@ == a.combo@,
        r.difficulty@ == a.difficulty@,
        r.phira_mode == a.phira_mode,
        r.judge_offset == a.judge_offset,
{
}

/// A configuration made for one request serves another exactly if the two agree on every shared
/// option.
pub proof fn lemma_which_requests_it_serves<S, D, C>(
    a: RenderConfig<S, D, C>,
    b: RenderConfig<S, D, C>,
    r: Config<S, C>,
)
    requires
        a.configures(r),
    ensures
        b.configures(r) <==> a.agrees(b),
{
}

/// From the request to the player that renders: it plays by itself and in silence, the volumes of
/// the request are handed out, and all else is as the request has it.
pub proof fn lemma_from_request_to_player<S: Copy, D: Copy, C: Copy>(
    a: RenderConfig<S, D, C>,
    silence: S,
    config: Config<S, C>,
    r: Offline<S, C>,
)
    requires
        call_ensures(RenderConfig::<S, D, C>::to_config, (&a,), config),
        call_ensures(Config::<S, C>::into_offline, (config, silence), r),
    ensures
        r.volume_music == a.volume_music,
        r.volume_sfx == a.volume_sfx,
        r.config.volume_music == silence,
        r.config.volume_sfx == silence,
        r.config.autoplay,
        r.config.disable_audio,
        !config.autoplay,
        !config.disable_audio,
        r.config.aggressive == a.aggressive,
        r.config.challenge_color == a.challenge_color,
        r.config.challenge_rank == a.challenge_rank,
        r.config.disable_effect == a.disable_effect,
        r.config.disable_loading == a.disable_loading,
        r.config.hires == a.hires,
        r.config.double_hint == a.double_hint,
        r.config.fxaa == a.fxaa,
        r.config.note_scale == a.note_scale,
        r.config.particle == a.particle,
        r.config.player_name@ == a.player_name@,
        r.config.player_rks == a.player_rks,
        r.config.sample_count == a.sample_count,
        r.config.res_pack_path.deep_view() == a.res_pack_path.deep_view(),
        r.config.speed == a.speed,
        r.config.chart_debug == a.chart_debug,
        r.config.chart_ratio == a.chart_ratio,
        r.config.all_good == a.all_good,
        r.config.watermark@ == a.watermark@,
        r.config.roman == a.roman,
        r.config.chinese == a.chinese,
        r.config.combo@ == a.combo@,
        r.config.difficulty@ == a.difficulty@,
        r.config.phira_mode == a.phira_mode,
        r.config.judge_offset == a.judge_offset,
{
}

/// A forced limit is a limit whatever the ratio; without one the samples are compressed exactly if
/// the ratio exceeds one.
pub proof fn lemma_limit_takes_precedence<S: Copy, D: Copy, C: Copy>(
    a: RenderConfig<S, D, C>,
    ratio_exceeds_one: bool,
    r: Dynamics,
)
    requires
        call_ensures(RenderConfig::<S, D, C>::dynamics, (&a, ratio_exceeds_one), r),
    ensures
        r is Limit <==> a.force_limit,
        r is Compress <==> !a.force_limit && ratio_exceeds_one,
        r is Untouched <==> !a.force_limit && !ratio_exceeds_one,
{
}

/// The loading scene is seen exactly where its time is counted: where it is left out it is never
/// on screen and the lead-in is without it, else the lead-in counts it and it is on screen as
/// long as the clock is inside it.
pub proof fn lemma_loading_is_counted_where_it_is_seen<S: Copy, D: Copy, C: Copy>(
    a: RenderConfig<S, D, C>,
    before: D,
    with_loading: D,
    inside: bool,
    lead_in: D,
    shown: bool,
)
    requires
        call_ensures(RenderConfig::<S, D, C>::lead_in, (&a, before, with_loading), lead_in),
        call_ensures(RenderConfig::<S, D, C>::shows_loading, (&a, inside), shown),
    ensures
        shown ==> lead_in == with_loading && inside,
        a.disable_loading ==> lead_in == before && !shown,
        !a.disable_loading ==> lead_in == with_loading && shown == inside,
{
}

} // verus!
