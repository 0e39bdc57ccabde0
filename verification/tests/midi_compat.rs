use yinhe_editor::document::ProjectMeta;
use yinhe_editor::midi_compat::{
    tempo_segment_starts, core_to_midi_file, core_to_old_model, ControlEvent, CoreModel, CoreNote, CoreProgram, CoreTrack,
};

fn note(key: u8, start_tick: u32, end_tick: u32, velocity: u8) -> CoreNote {
    CoreNote { key, start_tick, end_tick, velocity }
}

fn track(name: &str, port: u8, channel: u8, notes: Vec<CoreNote>) -> CoreTrack {
    CoreTrack {
        uuid: format!("uuid-{name}"),
        name: name.to_string(),
        port,
        channel,
        channel_prefix: None,
        notes,
        cc: Vec::new(),
        pitch_bend: Vec::new(),
        program_change: Vec::new(),
        rpn: Vec::new(),
    }
}

fn meta(ppq: u32) -> ProjectMeta {
    ProjectMeta {
        name: "Song".into(),
        artist: "Me".into(),
        description: String::new(),
        ppq,
        compression_level: 3,
    }
}

fn cc(ev: &ControlEvent) -> Option<(u8, u8, u16)> {
    match ev {
        ControlEvent::ControlChange { controller, value, track } => Some((*controller, *value, *track)),
        _ => None,
    }
}

#[test]
fn notes_are_bucketed_by_key_and_sorted_stably() {
    let model = CoreModel {
        meta: meta(480),
        tracks: vec![
            track("Piano", 0, 0, vec![note(60, 480, 960, 100), note(62, 0, 240, 90)]),
            track("Bass", 1, 3, vec![note(60, 0, 480, 80), note(60, 480, 500, 70)]),
        ],
        time_sig: Vec::new(),
        tempo: Vec::new(),
    };
    let m = core_to_midi_file(&model);
    assert_eq!(m.key_notes.len(), 128);
    assert_eq!(
        m.key_notes[60],
        vec![(0, (480, 80, 1)), (480, (960, 100, 0)), (480, (500, 70, 1))]
    );
    assert_eq!(m.key_notes[62], vec![(0, (240, 90, 0))]);
    assert!(m.key_notes[61].is_empty());
    assert_eq!(m.note_count, 4);
    assert_eq!(m.tick_length, 960);
    assert_eq!(m.ticks_per_beat, 480);
    assert_eq!(m.track_ports, vec![0, 1]);
    assert_eq!(m.track_channels, vec![0x00, 0x13]);
    assert_eq!(m.track_names, vec!["Piano".to_string(), "Bass".to_string()]);
    assert_eq!(m.raw_track_names[1], b"Bass".to_vec());
}

#[test]
fn empty_model_defaults_to_four_four() {
    let model = CoreModel { meta: meta(96), tracks: Vec::new(), time_sig: Vec::new(), tempo: Vec::new() };
    let m = core_to_midi_file(&model);
    assert_eq!((m.time_sig_numerator, m.time_sig_denominator), (4, 2));
    assert_eq!(m.note_count, 0);
    assert_eq!(m.tick_length, 0);
    assert!(m.control_events.is_empty());
}

#[test]
fn time_signatures_are_sorted() {
    let model = CoreModel {
        meta: meta(480),
        tracks: Vec::new(),
        time_sig: vec![(1920, (3, 2)), (0, (6, 3))],
        tempo: Vec::new(),
    };
    let m = core_to_midi_file(&model);
    assert_eq!(m.time_sig_events, vec![(0, (6, 3)), (1920, (3, 2))]);
    assert_eq!((m.time_sig_numerator, m.time_sig_denominator), (6, 3));
}

#[test]
fn global_channel_masks_port_and_channel() {
    let model = CoreModel { meta: meta(480), tracks: vec![track("t", 0x21, 0x1F, Vec::new())], time_sig: Vec::new(), tempo: Vec::new() };
    let m = core_to_midi_file(&model);
    assert_eq!(m.track_channels, vec![0x1F]);
}

#[test]
fn rpn_values_expand_to_controller_events() {
    let mut t = track("t", 0, 0, Vec::new());
    // pitch-bend range RPN (0, 0): 2 semitones + 50 cents = 2 << 7 | 50
    t.rpn = vec![(0x0000, vec![(10, (2 << 7) | 50)]), (0x0102, vec![(5, 7 << 7)])];
    t.cc = vec![(7, vec![(10, 100)])];
    t.pitch_bend = vec![(3, -200)];
    t.program_change = vec![CoreProgram { tick: 0, program: 5, bank_msb: 0, bank_lsb: 0 }];
    let model = CoreModel { meta: meta(480), tracks: vec![t], time_sig: Vec::new(), tempo: Vec::new() };
    let m = core_to_midi_file(&model);
    let ticks: Vec<u32> = m.control_events.iter().map(|e| e.0).collect();
    assert_eq!(ticks, vec![0, 3, 5, 5, 5, 10, 10, 10, 10, 10]);
    assert!(matches!(m.control_events[0].1, ControlEvent::ProgramChange { program: 5, track: 0 }));
    assert!(matches!(m.control_events[1].1, ControlEvent::PitchBend { value: -200, track: 0 }));
    let ccs: Vec<(u8, u8, u16)> = m.control_events.iter().filter_map(|e| cc(&e.1)).collect();
    assert_eq!(
        ccs,
        vec![
            // RPN 0x0102 at tick 5: data LSB 0, so no CC 38
            (101, 1, 0),
            (100, 2, 0),
            (6, 7, 0),
            // tick 10, in flattening order: the CC lane first, then the RPN
            (7, 100, 0),
            (101, 0, 0),
            (100, 0, 0),
            (6, 2, 0),
            (38, 50, 0),
        ]
    );
}

#[test]
fn old_model_keeps_tracks_and_keys_lanes() {
    let mut t = track("Lead", 2, 9, vec![note(64, 100, 340, 90), note(65, 500, 400, 60)]);
    t.cc = vec![(64, vec![(0, 127)]), (1, vec![(5, 10)]), (64, vec![(9, 0)])];
    t.rpn = vec![(0x0001, vec![(1, 5)]), (0x0000, vec![(2, 6)]), (0x0500, vec![(3, 7)])];
    t.program_change = vec![CoreProgram { tick: 0, program: 40, bank_msb: 1, bank_lsb: 2 }];
    let model = CoreModel { meta: meta(960), tracks: vec![t], time_sig: vec![(0, (3, 2))], tempo: Vec::new() };
    let old = core_to_old_model(&model);
    assert_eq!(old.meta.ppq, 960);
    assert_eq!(old.meta.name, "Song");
    assert_eq!(old.time_sig, vec![(0, (3, 2))]);
    let o = &old.tracks[0];
    assert_eq!(o.uuid, "uuid-Lead");
    assert_eq!((o.port, o.channel), (2, 9));
    let notes: Vec<(u32, u32, u8, u8)> = o.notes.iter().map(|n| (n.tick, n.duration, n.key, n.velocity)).collect();
    // an end before the start archives a zero length
    assert_eq!(notes, vec![(100, 240, 64, 90), (500, 0, 65, 60)]);
    // the later lane of controller 64 replaces the earlier one; keys come out in order
    let cc: Vec<(u8, Vec<(u32, u8)>)> = o.cc.iter().map(|(k, v)| (*k, v.clone())).collect();
    assert_eq!(cc, vec![(1, vec![(5, 10)]), (64, vec![(9, 0)])]);
    // RPN lanes are keyed by their MSB: 0x0000 replaces 0x0001
    let rpn: Vec<(u8, Vec<(u32, u16)>)> = o.rpn.iter().map(|(k, v)| (*k, v.clone())).collect();
    assert_eq!(rpn, vec![(0, vec![(2, 6)]), (5, vec![(3, 7)])]);
    assert_eq!(o.program_change[0].bank_lsb, 2);
}

#[test]
fn program_map_keeps_first_program_per_channel() {
    let pc = |tick: u32, program: u8| CoreProgram { tick, program, bank_msb: 0, bank_lsb: 0 };
    let mut a = track("a", 0, 0, Vec::new());
    a.program_change = vec![pc(0, 10), pc(100, 11)];
    let b = track("b", 0, 1, Vec::new());
    let mut c = track("c", 0, 0, Vec::new());
    c.program_change = vec![pc(0, 20)];
    let mut d = track("d", 0, 1, Vec::new());
    d.program_change = vec![pc(5, 30)];
    let model = CoreModel { meta: meta(480), tracks: vec![a, b, c, d], time_sig: Vec::new(), tempo: Vec::new() };
    let map = model.pc_map_cache();
    assert_eq!(map.len(), 2);
    assert_eq!(map.get(&0), Some(&10));
    assert_eq!(map.get(&1), Some(&30));
}

#[test]
fn tempo_segments_start_at_zero_and_keep_first_per_tick() {
    // no change at 0: a 120 BPM segment is put first
    assert_eq!(tempo_segment_starts(&vec![(960, 400_000)]), vec![(0, 500_000), (960, 400_000)]);
    // sorted by tick; of two changes at one tick the first is kept
    assert_eq!(
        tempo_segment_starts(&vec![(0, 600_000), (1920, 300_000), (480, 450_000), (1920, 250_000)]),
        vec![(0, 600_000), (480, 450_000), (1920, 300_000)]
    );
    // a later change at tick 0 loses to the default put first
    assert_eq!(tempo_segment_starts(&vec![(480, 450_000), (0, 600_000)]), vec![(0, 500_000), (480, 450_000)]);
    assert_eq!(tempo_segment_starts(&Vec::new()), vec![(0, 500_000)]);
}

#[test]
fn midi_view_carries_tempo_segments() {
    let model = CoreModel {
        meta: meta(480),
        tracks: Vec::new(),
        time_sig: Vec::new(),
        tempo: vec![(0, 400_000), (960, 500_000)],
    };
    let m = core_to_midi_file(&model);
    assert_eq!(m.tempo_segments, vec![(0, 400_000), (960, 500_000)]);
}
