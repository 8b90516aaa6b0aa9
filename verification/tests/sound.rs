use chart_render::config::Dynamics;
use chart_render::mix::{
    list_hits, make_sound, rate_mismatch, Effects, HitClips, HitSound, Mix, Music, Note, NoteKind,
    Treatment,
};

fn add(a: f32, b: f32) -> f32 {
    a + b
}

#[test]
fn rates_are_checked_in_order() {
    assert_eq!(rate_mismatch(48000, 48000, 48000, 48000), None);
    assert_eq!(rate_mismatch(44100, 8000, 48000, 48000), Some(44100));
    assert_eq!(rate_mismatch(48000, 48000, 22050, 8000), Some(22050));
    assert_eq!(rate_mismatch(48000, 48001, 22050, 8000), Some(48001));
    assert_eq!(rate_mismatch(48000, 48000, 48000, 8000), Some(8000));
}

#[test]
fn silent_mix() {
    let mix = Mix::silent(3, 0.0f32);
    assert_eq!(mix.len(), 3);
    assert_eq!(mix.into_stereo(), vec![0.0; 6]);
}

#[test]
fn clip_is_placed_and_cut_off() {
    let mut mix = Mix::silent(4, 0.0f32);
    let clip = [(1.0, 9.0), (2.0, 9.0), (3.0, 9.0)];
    assert_eq!(mix.place(0, &clip, &add), 3);
    assert_eq!(mix.place(2, &clip, &|a, b| a + b * 10.0), 2);
    assert_eq!(mix.place(4, &clip, &add), 0);
    assert_eq!(mix.place(usize::MAX, &clip, &add), 0);
    mix.join(&add);
    assert_eq!(
        mix.into_stereo(),
        vec![1.0, 1.0, 2.0, 2.0, 13.0, 13.0, 20.0, 20.0]
    );
}

#[test]
fn ending_is_overlaid_and_cut_off() {
    let mut mix = Mix::silent(3, 1.0f32);
    let clip = [(0.5, 0.25), (2.0, 4.0)];
    assert_eq!(mix.overlay(0, &clip, &add), 2);
    assert_eq!(mix.overlay(2, &clip, &add), 1);
    assert_eq!(mix.overlay(3, &clip, &add), 0);
    assert_eq!(
        mix.into_stereo(),
        vec![1.5, 1.25, 3.0, 5.0, 1.5, 1.25]
    );
}

#[test]
fn ending_is_repeated() {
    let mut mix = Mix::silent(4, 0.0f32);
    mix.overlay_all(&[1, 2, 4], &[(1.0, 2.0), (10.0, 20.0), (5.0, 5.0)], &add);
    assert_eq!(
        mix.into_stereo(),
        vec![0.0, 0.0, 1.0, 2.0, 11.0, 22.0, 15.0, 25.0]
    );
}

#[test]
fn track_is_laid_from_its_samples() {
    let mut mix = Mix::silent(4, 0.0f32);
    mix.lay_track(1, 3, &|i: usize| (i as f32, -(i as f32)), &|a, b| a + b * 2.0);
    assert_eq!(
        mix.into_stereo(),
        vec![0.0, 0.0, 0.0, -0.0, 2.0, -2.0, 4.0, -4.0]
    );
}

fn treated(dynamics: Dynamics) -> (Vec<f32>, f32) {
    let mut mix = Mix::silent(3, 0.0f32);
    mix.place(0, &[(0.5, 0.0), (-3.0, 0.0), (2.0, 0.0)], &add);
    let limit = |s: f32| s.max(-1.0).min(1.0);
    let compress = |s: f32, g: f32| (s * g, g + 1.0);
    let gain = mix.treat(dynamics, &limit, &compress, 1.0f32);
    mix.join(&add);
    let stereo = mix.into_stereo();
    (vec![stereo[0], stereo[3], stereo[4]], gain)
}

#[test]
fn hit_sounds_are_limited() {
    assert_eq!(treated(Dynamics::Limit), (vec![0.5, -1.0, 1.0], 1.0));
}

#[test]
fn hit_sounds_are_compressed_with_a_running_gain() {
    assert_eq!(treated(Dynamics::Compress), (vec![0.5, -6.0, 6.0], 4.0));
}

#[test]
fn hit_sounds_are_left_alone() {
    assert_eq!(treated(Dynamics::Untouched), (vec![0.5, -3.0, 2.0], 1.0));
}

fn note(kind: NoteKind, time: f32, fake: bool) -> Note<f32> {
    Note { kind, time, fake }
}

#[test]
fn hits_are_listed_line_by_line() {
    let lines = vec![
        vec![
            note(NoteKind::Flick, 2.0, false),
            note(NoteKind::Click, 1.0, true),
            note(NoteKind::Hold, 0.5, false),
        ],
        vec![],
        vec![note(NoteKind::Drag, 0.0, false), note(NoteKind::Click, 3.0, false)],
    ];
    assert_eq!(
        list_hits(&lines),
        vec![
            (2.0, HitSound::Flick),
            (0.5, HitSound::Click),
            (0.0, HitSound::Drag),
            (3.0, HitSound::Click),
        ]
    );
}

fn clips() -> HitClips<f32> {
    HitClips {
        click: vec![(1.0, 0.0)],
        drag: vec![(10.0, 0.0), (10.0, 0.0)],
        flick: vec![(100.0, 0.0)],
    }
}

#[test]
fn hit_sounds_are_placed_at_their_times() {
    let mut mix = Mix::silent(4, 0.0f32);
    let lines = vec![
        vec![note(NoteKind::Click, 0.5, false), note(NoteKind::Flick, 1.5, false)],
        vec![note(NoteKind::Drag, 0.5, false), note(NoteKind::Drag, 9.0, false)],
    ];
    mix.place_hits(&lines, &clips(), &|t: f32| (t * 2.0).round() as usize, &add);
    mix.join(&add);
    let stereo = mix.into_stereo();
    let left: Vec<f32> = stereo.iter().step_by(2).cloned().collect();
    assert_eq!(left, vec![0.0, 11.0, 10.0, 100.0]);
}

#[test]
fn fake_notes_are_silent() {
    let mut mix = Mix::silent(2, 0.0f32);
    let lines = vec![vec![note(NoteKind::Click, 0.0, true), note(NoteKind::Drag, 0.0, true)]];
    mix.place_hits(&lines, &clips(), &|_: f32| 0, &add);
    mix.join(&add);
    assert_eq!(mix.into_stereo(), vec![0.0; 4]);
}

#[test]
fn kinds_and_sounds() {
    assert_eq!(NoteKind::Click.sound(), HitSound::Click);
    assert_eq!(NoteKind::Hold.sound(), HitSound::Click);
    assert_eq!(NoteKind::Drag.sound(), HitSound::Drag);
    assert_eq!(NoteKind::Flick.sound(), HitSound::Flick);
    assert_eq!(clips().get(HitSound::Drag).len(), 2);
}

#[test]
fn empty_track_may_start_past_the_end() {
    let mut mix = Mix::silent(1, 0.5f32);
    mix.lay_track(2, 0, &|_: usize| (9.0, 9.0), &add);
    assert_eq!(mix.into_stereo(), vec![0.5, 0.5]);
}

fn sound(with_music: bool, with_effects: bool, dynamics: Dynamics) -> Vec<f32> {
    let lines = vec![vec![note(NoteKind::Flick, 1.0, false), note(NoteKind::Drag, 2.0, true)]];
    let music = Music {
        start: 0,
        len: 2,
        sample: &|i: usize| (1.0 + i as f32, 2.0),
        endings: &[2],
        ending: &[(4.0, 8.0), (4.0, 8.0)],
        mix: &|a: f32, b: f32| a + b * 0.5,
    };
    let effects = Effects {
        lines: &lines,
        clips: &clips(),
        locate: &|time: f32| time as usize,
        mix: &add,
    };
    let treatment = Treatment {
        dynamics,
        limit: &|sample: f32| sample.min(10.0),
        compress: &|sample: f32, gain: f32| (sample * gain, gain),
        gain: 0.25f32,
    };
    make_sound(3, 0.0f32, with_music, &music, with_effects, &effects, treatment, &add)
}

#[test]
fn whole_sound() {
    let expected = vec![0.5, 1.0, 101.0, 101.0, 2.0, 4.0];
    assert_eq!(sound(true, true, Dynamics::Untouched), expected);
    let expected = vec![0.5, 1.0, 11.0, 11.0, 2.0, 4.0];
    assert_eq!(sound(true, true, Dynamics::Limit), expected);
    let expected = vec![0.5, 1.0, 26.0, 26.0, 2.0, 4.0];
    assert_eq!(sound(true, true, Dynamics::Compress), expected);
}

#[test]
fn muted_parts_stay_silent() {
    let expected = vec![0.5, 1.0, 1.0, 1.0, 2.0, 4.0];
    assert_eq!(sound(true, false, Dynamics::Limit), expected);
    let expected = vec![0.0, 0.0, 100.0, 100.0, 0.0, 0.0];
    assert_eq!(sound(false, true, Dynamics::Untouched), expected);
    assert_eq!(sound(false, false, Dynamics::Compress), vec![0.0; 6]);
}
