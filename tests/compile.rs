use graph_loader::compiler::{compile, requested_paths, CompileError};
use graph_loader::control::{ControlMessage, ControlPayload};
use graph_loader::description::{ChannelSource, FileKind, FontRange, LoopSpec, SourceDescription};

fn square(node_id: u64) -> SourceDescription {
    SourceDescription::SquareWave {
        node_id,
        amplitude_bits: 1.0f32.to_bits(),
        duty_cycle_bits: 0.5f32.to_bits(),
    }
}

fn receiver(node_id: u64, source: SourceDescription) -> SourceDescription {
    SourceDescription::EventReceiver { node_id, source: Box::new(source) }
}

fn one_shot(node_id: u64, path: &str) -> SourceDescription {
    SourceDescription::OneShotFile { node_id, path: path.to_string() }
}

#[test]
fn envelope_over_receiver_gives_one_channel_that_accepts_a_seek() {
    let d = SourceDescription::Envelope {
        node_id: 1,
        attack_bits: 0.0f32.to_bits(),
        decay_bits: 0.0f32.to_bits(),
        sustain_bits: 1.0f32.to_bits(),
        release_bits: 0.0f32.to_bits(),
        source: Box::new(receiver(2, square(3))),
    };
    let mut g = match compile(&d, &Vec::new()) {
        Ok(g) => g,
        Err(_) => panic!("compile failed"),
    };
    assert_eq!(g.channels.len(), 1);
    assert!(g.buffers.is_empty());
    let ch = &mut g.channels[0];
    assert_eq!(ch.point().node_id, 2);
    assert!(!ch.point().deferred);
    let msg = ControlMessage { target: 2, payload: ControlPayload::SeekWhenIdeal { anchor: 1 } };
    assert!(ch.send(msg).is_ok());
    ch.process();
    assert_eq!(ch.applied(), &vec![1u64]);
    assert_eq!(ch.pending(), None);
}

#[test]
fn mixer_of_two_waves_has_no_channels() {
    let d = SourceDescription::Mixer {
        node_id: 1,
        balance_bits: 0.5f32.to_bits(),
        source_0: Box::new(SourceDescription::TriangleWave { node_id: 2, amplitude_bits: 0.5f32.to_bits() }),
        source_1: Box::new(SourceDescription::SawtoothWave { node_id: 3, amplitude_bits: 0.5f32.to_bits() }),
    };
    match compile(&d, &Vec::new()) {
        Ok(g) => {
            assert_eq!(g.channels.len(), 0);
            assert!(g.buffers.is_empty());
        },
        Err(_) => panic!("compile failed"),
    }
}

#[test]
fn combiner_channels_follow_child_order() {
    let d = SourceDescription::Combiner {
        node_id: 1,
        sources: vec![receiver(10, square(11)), square(20), receiver(30, square(31))],
    };
    let g = match compile(&d, &Vec::new()) {
        Ok(g) => g,
        Err(_) => panic!("compile failed"),
    };
    let ids: Vec<u64> = g.channels.iter().map(|c| c.point().node_id).collect();
    assert_eq!(ids, vec![10, 30]);
}

#[test]
fn channel_count_matches_receivers_and_sequences() {
    let midi = SourceDescription::Midi {
        node_id: 5,
        path: "song.mid".to_string(),
        channels: vec![
            ChannelSource { channel: 0, source: receiver(6, square(7)) },
            ChannelSource { channel: 9, source: one_shot(8, "kick.wav") },
        ],
    };
    let d = receiver(4, midi);
    let resolved = vec![Some(vec![1u8, 2]), Some(vec![3u8])];
    let g = match compile(&d, &resolved) {
        Ok(g) => g,
        Err(_) => panic!("compile failed"),
    };
    let ids: Vec<u64> = g.channels.iter().map(|c| c.point().node_id).collect();
    assert_eq!(ids, vec![6, 5, 4]);
    let deferred: Vec<bool> = g.channels.iter().map(|c| c.point().deferred).collect();
    assert_eq!(deferred, vec![false, true, true]);
    assert_eq!(g.buffers, vec![vec![1u8, 2], vec![3u8]]);
}

#[test]
fn requested_paths_follow_the_walk() {
    let d = SourceDescription::Mixer {
        node_id: 1,
        balance_bits: 0.5f32.to_bits(),
        source_0: Box::new(SourceDescription::Midi {
            node_id: 2,
            path: "a.mid".to_string(),
            channels: vec![ChannelSource {
                channel: 1,
                source: SourceDescription::SoundFontFile {
                    node_id: 3,
                    path: "b.sf2".to_string(),
                    instrument_index: 4,
                },
            }],
        }),
        source_1: Box::new(one_shot(5, "c.wav")),
    };
    let requests: Vec<(FileKind, String)> =
        requested_paths(&d).into_iter().map(|r| (r.kind, r.path)).collect();
    assert_eq!(
        requests,
        vec![
            (FileKind::Sequence, "a.mid".to_string()),
            (FileKind::SoundFont, "b.sf2".to_string()),
            (FileKind::OneShot, "c.wav".to_string()),
        ]
    );
}

#[test]
fn no_file_leaves_request_nothing() {
    let d = SourceDescription::Combiner { node_id: 1, sources: vec![square(2), square(3)] };
    assert!(requested_paths(&d).is_empty());
    assert!(compile(&d, &vec![None]).is_ok());
}

#[test]
fn unresolved_file_fails_the_compile() {
    let d = SourceDescription::Combiner {
        node_id: 1,
        sources: vec![one_shot(2, "here.wav"), receiver(3, one_shot(4, "missing.wav"))],
    };
    let resolved = vec![Some(vec![0u8]), None];
    match compile(&d, &resolved) {
        Err(CompileError::Unresolved { path }) => assert_eq!(path, "missing.wav"),
        _ => panic!("expected an unresolved file"),
    }
}

#[test]
fn too_few_answers_fail_the_compile() {
    let d = one_shot(1, "x.wav");
    assert!(matches!(compile(&d, &Vec::new()), Err(CompileError::Unresolved { .. })));
}

#[test]
fn reversed_font_range_is_rejected() {
    let d = SourceDescription::FontRanges {
        node_id: 7,
        ranges: vec![FontRange { lower: 60, upper: 50, source: square(8) }],
    };
    assert!(matches!(compile(&d, &Vec::new()), Err(CompileError::InvalidParameter { node_id: 7 })));
}

#[test]
fn font_range_above_the_last_note_is_rejected() {
    let d = SourceDescription::FontRanges {
        node_id: 7,
        ranges: vec![
            FontRange { lower: 0, upper: 127, source: square(8) },
            FontRange { lower: 100, upper: 128, source: square(9) },
        ],
    };
    assert!(matches!(compile(&d, &Vec::new()), Err(CompileError::InvalidParameter { node_id: 7 })));
}

#[test]
fn midi_channel_out_of_range_is_rejected() {
    let d = SourceDescription::Midi {
        node_id: 3,
        path: "a.mid".to_string(),
        channels: vec![ChannelSource { channel: 16, source: square(4) }],
    };
    let resolved = vec![Some(vec![0u8])];
    assert!(matches!(compile(&d, &resolved), Err(CompileError::InvalidParameter { node_id: 3 })));
}

#[test]
fn noise_note_out_of_range_is_rejected() {
    let d = SourceDescription::LfsrNoise {
        node_id: 9,
        amplitude_bits: 0.5f32.to_bits(),
        inside_feedback: true,
        note_for_16_shifts: 128,
    };
    assert!(matches!(compile(&d, &Vec::new()), Err(CompileError::InvalidParameter { node_id: 9 })));
}

#[test]
fn empty_loop_is_rejected() {
    let d = SourceDescription::SampleFile {
        node_id: 2,
        path: "loop.wav".to_string(),
        base_note: 60,
        looping: Some(LoopSpec { start: 100, end: Some(100) }),
    };
    let resolved = vec![Some(vec![0u8])];
    assert!(matches!(compile(&d, &resolved), Err(CompileError::InvalidParameter { node_id: 2 })));
    let open_loop = SourceDescription::SampleFile {
        node_id: 2,
        path: "loop.wav".to_string(),
        base_note: 60,
        looping: Some(LoopSpec { start: 100, end: None }),
    };
    assert!(compile(&open_loop, &resolved).is_ok());
}

#[test]
fn mixer_balance_outside_unit_interval_is_rejected() {
    let mix = |balance: f32| SourceDescription::Mixer {
        node_id: 4,
        balance_bits: balance.to_bits(),
        source_0: Box::new(square(5)),
        source_1: Box::new(square(6)),
    };
    assert!(matches!(compile(&mix(1.5), &Vec::new()), Err(CompileError::InvalidParameter { node_id: 4 })));
    assert!(matches!(compile(&mix(-0.25), &Vec::new()), Err(CompileError::InvalidParameter { node_id: 4 })));
    assert!(compile(&mix(1.0), &Vec::new()).is_ok());
    assert!(compile(&mix(0.0), &Vec::new()).is_ok());
}
