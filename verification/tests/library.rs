use tseq::midi_seq::check_midi_channels;
use tseq::player::{
    advance, initial_playback, playback_step, resume, transition, Command, Order, PlaybackState,
    PlayerStep, State, Transition,
};
use std::collections::VecDeque;

use tseq::audio_data::Interleaved;
use tseq::audio_event::{fadein_tick, fadeout_tick, AudioEventBase};
use tseq::binder::{
    check_sequences, defined_sequences, elements_scheduling, fetch_sequence, scheduling_error_message,
    sequence_dependencies, SchedulingError, SequencesError,
};
use tseq::gp_error::GpError;
use tseq::output_presenter::{OutputPresenter, CODECS_NAMES, SAMPLE_RATES};
use tseq::parser::{counts_fit, parse, Expression, PBeat, PPitch, PTransition};
use tseq::pitch::{backward_notes_shift, notes_shift, Pitch, PitchError};
use tseq::save::{
    attribute_line, declaration_line, session_lines, talk_attribute, AttributeBackup, ModuleBackup,
};
use tseq::sequence::{limit_overflowing_durations, EventTicks};
use tseq::session::{id_from_mref, make_decs, mref, name_from_mref, DecsError, MrefError};
use tseq::settings::{backup_dir, backup_path, configuration_dir, get_directory, APPLICATION_NAME};
use tseq::talker_control::{format_label, format_name, format_tag};
use tseq::trigger::trigger_sequence_talk;

fn ev(start_tick: i64, end_tick: i64) -> EventTicks {
    EventTicks { start_tick, end_tick }
}

fn pitch(id: &str) -> Pitch {
    Pitch { id: id.to_string(), transition: PTransition::NoTransition }
}

fn ids(pitchs: &Vec<Pitch>) -> Vec<String> {
    pitchs.iter().map(|p| p.id.clone()).collect()
}

#[test]
fn limit_overflowing_durations_cuts_each_event_at_the_next_start() {
    let mut harmonics = VecDeque::new();
    harmonics.push_back(vec![ev(0, 10), ev(5, 8), ev(8, 20)]);
    harmonics.push_back(vec![ev(3, 4)]);
    harmonics.push_back(vec![ev(0, 2), ev(2, 9), ev(9, 9)]);
    limit_overflowing_durations(&mut harmonics);
    assert_eq!(harmonics.len(), 3);
    assert_eq!(harmonics[0], vec![ev(0, 5), ev(5, 8), ev(8, 20)]);
    assert_eq!(harmonics[1], vec![ev(3, 4)]);
    assert_eq!(harmonics[2], vec![ev(0, 2), ev(2, 9), ev(9, 9)]);
}

#[test]
fn limit_overflowing_durations_twice_changes_nothing_more() {
    let mut harmonics = VecDeque::new();
    harmonics.push_back(vec![ev(0, 30), ev(10, 40), ev(20, 25)]);
    limit_overflowing_durations(&mut harmonics);
    let once = harmonics.clone();
    limit_overflowing_durations(&mut harmonics);
    assert_eq!(harmonics, once);
    assert_eq!(harmonics[0], vec![ev(0, 10), ev(10, 20), ev(20, 25)]);
}

#[test]
fn trigger_sequence_talk_marks_the_events_of_the_chunk() {
    let starts = vec![0, 4, 4, 9, 15];
    let mut index = 0;
    assert_eq!(trigger_sequence_talk(2, 8, &starts, &mut index), vec![2, 2, 7]);
    assert_eq!(index, 4);
    assert_eq!(trigger_sequence_talk(10, 5, &starts, &mut index), Vec::<usize>::new());
    assert_eq!(index, 4);
    assert_eq!(trigger_sequence_talk(15, 1, &starts, &mut index), vec![0]);
    assert_eq!(index, 5);
}

#[test]
fn trigger_sequence_talk_does_not_depend_on_the_reminder() {
    let starts = vec![1, 3, 5, 7];
    for start_index in 0..=starts.len() {
        let mut index = start_index;
        assert_eq!(trigger_sequence_talk(3, 4, &starts, &mut index), vec![0, 2]);
        assert_eq!(index, 3);
    }
}

#[test]
fn trigger_sequence_talk_in_two_chunks_marks_what_one_chunk_marks() {
    let starts = vec![0, 2, 3, 6, 8, 11];
    let mut index = 0;
    let whole = trigger_sequence_talk(1, 9, &starts, &mut index);
    let mut index = 0;
    let first = trigger_sequence_talk(1, 4, &starts, &mut index);
    let second = trigger_sequence_talk(5, 5, &starts, &mut index);
    let mut joined = first.clone();
    joined.extend(second.iter().map(|p| p + 4));
    assert_eq!(whole, vec![1, 2, 5, 7]);
    assert_eq!(joined, whole);
}

#[test]
fn elements_scheduling_orders_dependencies_first() {
    let deps = vec![vec![1], vec![], vec![0, 1]];
    assert_eq!(elements_scheduling(&deps), Ok(vec![1, 0, 2]));
    assert_eq!(elements_scheduling(&vec![]), Ok(vec![]));
    assert_eq!(elements_scheduling(&vec![vec![], vec![]]), Ok(vec![0, 1]));
}

#[test]
fn elements_scheduling_reports_mutual_dependencies() {
    let deps = vec![vec![], vec![2], vec![1], vec![0]];
    assert_eq!(elements_scheduling(&deps), Err(SchedulingError::MutuallyDependent(vec![1, 2])));
    let deps = vec![vec![0]];
    assert_eq!(elements_scheduling(&deps), Err(SchedulingError::MutuallyDependent(vec![0])));
}

#[test]
fn scheduling_error_message_names_the_elements() {
    let ids = vec!["a".to_string(), "b".to_string()];
    assert_eq!(
        scheduling_error_message("chordline", &ids),
        "Mutually dependent chordlines is forbidden! Concerned chordlines : a b ."
    );
}

#[test]
fn notes_shift_rotates() {
    let mut pitchs = vec![pitch("a"), pitch("b"), pitch("c"), pitch("d")];
    assert_eq!(notes_shift(&mut pitchs, 1), Ok(()));
    assert_eq!(ids(&pitchs), vec!["b", "c", "d", "a"]);
    assert_eq!(notes_shift(&mut pitchs, 3), Ok(()));
    assert_eq!(ids(&pitchs), vec!["a", "b", "c", "d"]);
    assert_eq!(notes_shift(&mut pitchs, 0), Ok(()));
    assert_eq!(ids(&pitchs), vec!["a", "b", "c", "d"]);
}

#[test]
fn notes_shift_refuses_a_count_past_the_notes() {
    let mut pitchs = vec![pitch("a"), pitch("b")];
    assert_eq!(notes_shift(&mut pitchs, 2), Err(PitchError::InvalidShiftCount(2)));
    assert_eq!(ids(&pitchs), vec!["a", "b"]);
    let mut none: Vec<Pitch> = vec![];
    assert_eq!(notes_shift(&mut none, 0), Err(PitchError::InvalidShiftCount(0)));
}

#[test]
fn backward_notes_shift_rotates_then_reverses() {
    let mut pitchs = vec![pitch("a"), pitch("b"), pitch("c"), pitch("d")];
    assert_eq!(backward_notes_shift(&mut pitchs, 1), Ok(()));
    assert_eq!(ids(&pitchs), vec!["a", "d", "c", "b"]);
    assert_eq!(backward_notes_shift(&mut pitchs, 5), Err(PitchError::InvalidShiftCount(5)));
    assert_eq!(ids(&pitchs), vec!["a", "d", "c", "b"]);
}

#[test]
fn pitch_copies() {
    let p = Pitch::from_parser_pitch(&PPitch { id: "c4".to_string(), transition: PTransition::Sin });
    assert_eq!(p.id, "c4");
    assert_eq!(p.transition, PTransition::Sin);
    let q = Pitch::new(&p);
    assert_eq!(q, p);
}

fn lines(text: &[&str]) -> Vec<String> {
    text.iter().map(|l| l.to_string()).collect()
}

#[test]
fn make_decs_files_modules_by_kind() {
    let ls = lines(&[
        "/ a session",
        "",
        "Sinusoidal 1#sin freq",
        "> freq 2#abs:out",
        "> gain 3#lfo",
        "track 4#trk",
        "mixer  5#mix\t",
        "output 6#out file",
    ]);
    let decs = make_decs(&ls).unwrap();
    assert_eq!(decs.talkers.modules.len(), 1);
    let sin = &decs.talkers.modules[0];
    assert_eq!((sin.kind, sin.mref, sin.feature), ("Sinusoidal", "1#sin", "freq"));
    assert_eq!(sin.attributs, vec![("freq", "2#abs", "out"), ("gain", "3#lfo", "")]);
    assert_eq!(decs.tracks.modules.len(), 1);
    assert_eq!((decs.tracks.modules[0].mref, decs.tracks.modules[0].feature), ("4#trk", ""));
    assert_eq!(decs.mixers.modules.len(), 1);
    assert_eq!((decs.mixers.modules[0].mref, decs.mixers.modules[0].feature), ("", "5#mix"));
    assert_eq!(decs.outputs.modules.len(), 1);
    assert_eq!((decs.outputs.modules[0].mref, decs.outputs.modules[0].feature), ("6#out", "file"));
}

#[test]
fn make_decs_keeps_the_last_module_of_a_reference() {
    let ls = lines(&["track 1#a first", "track 1#a second", "track 2#b"]);
    let decs = make_decs(&ls).unwrap();
    assert_eq!(decs.tracks.modules.len(), 2);
    let a = decs.tracks.modules.iter().find(|m| m.mref == "1#a").unwrap();
    assert_eq!(a.feature, "second");
    assert!(decs.talkers.modules.is_empty());
}

#[test]
fn make_decs_refuses_an_attribute_before_any_module() {
    let ls = lines(&["> freq 2#abs", "track 1#a"]);
    match make_decs(&ls) {
        Err(e) => assert_eq!(
            e,
            DecsError::AttributeBeforeModule { tag: "freq".to_string(), talker: "2#abs".to_string() }
        ),
        Ok(_) => panic!("an attribute before any module was accepted"),
    }
}

#[test]
fn mref_joins_id_and_name() {
    assert_eq!(mref(12, "my talker\tone"), "12#my_talker_one");
    assert_eq!(mref(0, ""), "0#");
    assert_eq!(mref(4294967295, "x"), "4294967295#x");
}

#[test]
fn mref_is_read_back() {
    let r = mref(42, "low pass");
    assert_eq!(name_from_mref(&r), "low_pass");
    assert_eq!(id_from_mref(&r).unwrap(), 42);
}

#[test]
fn name_from_mref_without_one_hash_is_the_reference() {
    assert_eq!(name_from_mref("noname"), "noname");
    assert_eq!(name_from_mref("1#a#b"), "1#a#b");
    assert_eq!(name_from_mref("7#"), "");
}

#[test]
fn id_from_mref_reads_the_identifier() {
    assert_eq!(id_from_mref("17#abc").unwrap(), 17);
    assert_eq!(id_from_mref("+8").unwrap(), 8);
    match id_from_mref("x#abc") {
        Err(MrefError::Id { mref, .. }) => assert_eq!(mref, "x#abc"),
        Ok(_) => panic!("a reference without identifier was read"),
    }
    assert!(id_from_mref("4294967296#a").is_err());
    assert!(id_from_mref("#a").is_err());
}

#[test]
fn format_label_keeps_the_first_line() {
    assert_eq!(format_label("  hello\nworld", 10), "hello");
    assert_eq!(format_label(" \n", 10), "...");
    assert_eq!(format_label("", 10), "...");
    assert_eq!(format_label("abcdefghijkl", 5), "abcde...");
    assert_eq!(format_label("abcde", 5), "abcde");
}

#[test]
fn format_name_cuts_at_24_bytes() {
    assert_eq!(format_name("a name that is longer than allowed"), "a name that is longer th...");
    assert_eq!(format_name("short"), "short");
}

#[test]
fn format_tag_is_upper_case() {
    assert_eq!(format_tag("gain"), "GAIN");
    assert_eq!(format_tag("ééa"), "ÉÉA");
}

#[test]
fn audio_event_base_holds_its_ticks() {
    let b = AudioEventBase::new(1, 2, 3, 4, 5);
    assert_eq!((b.start_tick, b.fadein_tick, b.fadeout_tick, b.end_tick, b.envelop_index), (1, 2, 3, 4, 5));
}

#[test]
fn fades_stay_within_the_event() {
    assert_eq!(fadein_tick(100, 1000, true, 64), 164);
    assert_eq!(fadein_tick(100, 120, true, 64), 120);
    assert_eq!(fadein_tick(100, 1000, false, 64), 100);
    assert_eq!(fadeout_tick(100, 1000, true, 64), 936);
    assert_eq!(fadeout_tick(100, 120, true, 64), 100);
    assert_eq!(fadeout_tick(100, 1000, false, 64), 1000);
}

#[test]
fn gp_error_texts() {
    let e = GpError {};
    assert_eq!(e.to_string(), "GpError is here!");
    assert_eq!(e.description(), "I'm the gphero of errors");
}

#[test]
fn configuration_dir_prefers_the_local_configuration() {
    let local = std::path::PathBuf::from("/conf");
    let home = std::path::PathBuf::from("/home/u");
    let d = configuration_dir(Some(local.clone()), Some(home.clone()));
    assert_eq!(d.base, Some(local));
    assert_eq!(d.name, APPLICATION_NAME);
    let d = configuration_dir(None, Some(home.clone()));
    assert_eq!(d.base, Some(home));
    assert_eq!(d.name, ".graffophone");
    let d = configuration_dir(None, None);
    assert_eq!(d.base, None);
    assert_eq!(d.name, ".graffophone");
}

#[test]
fn backup_dir_is_in_the_state_directory() {
    let state = std::path::PathBuf::from("/state");
    let d = backup_dir(Some(state.clone())).unwrap();
    assert_eq!(d.base, Some(state));
    assert_eq!(d.name, "graffophone");
    assert!(backup_dir(None).is_none());
}

#[test]
fn output_presenter_finds_codec_and_sample_rate() {
    let mut o = OutputPresenter::new(3, "libvorbis", 48000, "stereo", "/tmp/a.ogg");
    assert_eq!(o.id(), 3);
    assert_eq!(o.codec_index(), 2);
    assert_eq!(CODECS_NAMES[o.codec_index()], "libvorbis");
    assert_eq!(o.sample_rate_index(), 6);
    assert_eq!(SAMPLE_RATES[o.sample_rate_index()], "48000");
    assert!(o.knows_codec() && o.knows_sample_rate());
    o.set_codec_name("pcm_s24le");
    o.set_sample_rate(8000);
    assert_eq!((o.codec_index(), o.sample_rate_index()), (5, 0));
    o.set_codec_name("unknown");
    o.set_sample_rate(12345);
    assert_eq!((o.codec_index(), o.sample_rate_index()), (0, 0));
    assert!(!o.knows_codec() && !o.knows_sample_rate());
    o.set_channel_layout("mono");
    o.set_file_path("/tmp/b.flac");
    assert_eq!((o.channel_layout(), o.file_path(), o.codec_name(), o.sample_rate()), ("mono", "/tmp/b.flac", "unknown", 12345));
}

#[test]
fn interleaved_alternates_the_channels() {
    let channels = vec![vec![1, 2, 3, 9], vec![10, 20, 30, 90]];
    let i = Interleaved::new(&channels, 3);
    assert_eq!(i.nb_channels(), 2);
    assert_eq!(i.nb_samples_per_channel(), 3);
    assert_eq!(i.vector(), vec![1, 10, 2, 20, 3, 30]);
    assert!(!i.is_end());
    let e: Interleaved<f32> = Interleaved::end();
    assert!(e.is_end());
    assert!(e.vector().is_empty());
    assert_eq!((e.nb_channels(), e.nb_samples_per_channel()), (0, 0));
}

#[test]
fn counts_fit_tells_when_a_count_is_too_large() {
    assert!(counts_fit("beat b : 90\n"));
    assert!(!counts_fit("beat b : 99999999999999999999999\n"));
    assert!(counts_fit("seq s : @s_1*3\n"));
    assert!(!counts_fit("seq s : @s_1*99999999999999999999999\n"));
    assert!(counts_fit("hits h : 99999999999999999999999\n"));
    let text = "beat b : 18446744073709551615\n";
    assert!(counts_fit(text));
    assert_eq!(
        parse(text),
        Ok(vec![Expression::Beat(PBeat { id: "b".to_string(), bpm: 18446744073709551615 })])
    );
}

fn attr(tag: &str, talker: &str, port: &str) -> AttributeBackup {
    AttributeBackup { tag: tag.to_string(), talker: talker.to_string(), port: port.to_string() }
}

#[test]
fn attribute_and_declaration_lines() {
    assert_eq!(attribute_line(&attr("freq", "2#abs", "out")), "> freq 2#abs:out");
    assert_eq!(attribute_line(&attr("gain", "3#lfo", "")), "> gain 3#lfo");
    assert_eq!(declaration_line("track", "4#trk", &None), "track 4#trk");
    assert_eq!(declaration_line("Sinusoidal", "1#sin", &Some("440".to_string())), "Sinusoidal 1#sin 440");
    assert_eq!(declaration_line("Sinusoidal", "1#sin", &Some(String::new())), "Sinusoidal 1#sin ");
}

#[test]
fn session_lines_are_read_back() {
    let modules = vec![
        ModuleBackup {
            kind: "Sinusoidal".to_string(),
            mref: mref(1, "sin"),
            feature: Some(String::new()),
            attributes: vec![attr("freq", "2#abs", "out"), attr("gain", "3#lfo", "")],
        },
        ModuleBackup {
            kind: "track".to_string(),
            mref: mref(4, "my track"),
            feature: None,
            attributes: vec![attr("in", "1#sin", "")],
        },
        ModuleBackup {
            kind: "output".to_string(),
            mref: mref(6, "out"),
            feature: Some("file".to_string()),
            attributes: vec![attr("codec", "flac", "")],
        },
    ];
    let lines = session_lines(&modules);
    assert_eq!(
        lines,
        vec![
            "", "Sinusoidal 1#sin ", "> freq 2#abs:out", "> gain 3#lfo",
            "", "track 4#my_track", "> in 1#sin",
            "", "output 6#out file", "> codec flac",
        ]
    );
    let decs = make_decs(&lines).unwrap();
    assert_eq!(decs.talkers.modules.len(), 1);
    let sin = &decs.talkers.modules[0];
    assert_eq!((sin.kind, sin.mref, sin.feature), ("Sinusoidal", "1#sin", ""));
    assert_eq!(sin.attributs, vec![("freq", "2#abs", "out"), ("gain", "3#lfo", "")]);
    assert_eq!(decs.tracks.modules.len(), 1);
    assert_eq!((decs.tracks.modules[0].mref, decs.tracks.modules[0].attributs.clone()), ("4#my_track", vec![("in", "1#sin", "")]));
    assert_eq!(decs.outputs.modules.len(), 1);
    assert_eq!((decs.outputs.modules[0].kind, decs.outputs.modules[0].feature), ("output", "file"));
    assert!(decs.mixers.modules.is_empty());
}

fn sequences_of(text: &str) -> Vec<tseq::parser::PSequence> {
    assert!(counts_fit(text));
    defined_sequences(parse(text).unwrap())
}

#[test]
fn defined_sequences_keeps_the_seq_statements() {
    let seqs = sequences_of("seq a : p1\nseqout o : @a\nbeat b : 90\nseq c : @a p2\n");
    let ids: Vec<&str> = seqs.iter().map(|q| q.id.as_str()).collect();
    assert_eq!(ids, vec!["a", "c"]);
}

#[test]
fn sequence_dependencies_lists_each_reference_once() {
    let seqs = sequences_of("seq a : @b p1 @b @a\nseq b : p2\n");
    assert_eq!(sequence_dependencies(&seqs, &seqs[0].fragments), Ok(vec![1, 0]));
    assert_eq!(sequence_dependencies(&seqs, &seqs[1].fragments), Ok(vec![]));
    let seqs = sequences_of("seq a : @x @y\n");
    assert_eq!(sequence_dependencies(&seqs, &seqs[0].fragments), Err("x".to_string()));
}

#[test]
fn check_sequences_accepts_sequences_in_dependency_order() {
    let seqs = sequences_of("seq a : @b @c\nseq b : @c\nseq c : p1\n");
    assert_eq!(check_sequences(&seqs), Ok(()));
    assert_eq!(check_sequences(&vec![]), Ok(()));
}

#[test]
fn check_sequences_refuses_mutual_dependencies() {
    let seqs = sequences_of("seq a : @b\nseq b : @a\nseq c : p1\n");
    let e = check_sequences(&seqs).unwrap_err();
    assert_eq!(e, SequencesError::MutuallyDependent(vec![0, 1]));
    assert_eq!(
        e.message(&seqs),
        "Mutually dependent sequences is forbidden! Concerned sequences : a b ."
    );
    let seqs = sequences_of("seq a : @a\n");
    assert_eq!(check_sequences(&seqs), Err(SequencesError::MutuallyDependent(vec![0])));
}

#[test]
fn check_sequences_refuses_unknown_references() {
    let seqs = sequences_of("seq a : p1\nseq b : @a @z\nseq c : @y\n");
    let e = check_sequences(&seqs).unwrap_err();
    assert_eq!(e, SequencesError::Unknown("z".to_string()));
    assert_eq!(e.message(&seqs), "Sequence z unknown!");
}

#[test]
fn fetch_sequence_finds_the_first_of_a_name() {
    let seqs = sequences_of("seq a : p1\nseq b : p2\nseq a : p3\n");
    let q = fetch_sequence(&seqs, "a").unwrap();
    assert!(std::ptr::eq(q, &seqs[0]));
    let q = fetch_sequence(&seqs, "b").unwrap();
    assert_eq!(q.id, "b");
    match fetch_sequence(&seqs, "z") {
        Err(e) => assert_eq!(e, "Sequence z not found!"),
        Ok(_) => panic!("an unknown sequence was found"),
    }
}

#[test]
fn settings_directories_are_named_after_the_application() {
    for path in [get_directory(), backup_path()] {
        let name = path.file_name().unwrap();
        assert!(name == "graffophone" || name == ".graffophone", "{:?}", path);
        assert!(path.components().count() >= 1);
    }
}

#[test]
fn talk_attribute_refers_to_the_talker_or_holds_its_data() {
    let a = talk_attribute("freq", false, "", 3, "my osc", "out");
    assert_eq!(attribute_line(&a), "> freq 3#my_osc:out");
    let a = talk_attribute("gain", false, "", 4, "lfo", "");
    assert_eq!(attribute_line(&a), "> gain 4#lfo");
    let a = talk_attribute("gain", true, "0.5", 4, "lfo", "out");
    assert_eq!(attribute_line(&a), "> gain 0.5");
}

#[test]
fn decs_error_message_names_the_attribute() {
    let ls = lines(&["> freq 220"]);
    match make_decs(&ls) {
        Err(e) => assert_eq!(e.message(), "Found module attribut freq 220 before module!"),
        Ok(_) => panic!("an attribute before any module was accepted"),
    }
}

#[test]
fn mref_error_message_names_the_reference() {
    let e = id_from_mref("x#abc").unwrap_err();
    let cause = "x".parse::<u32>().unwrap_err().to_string();
    assert_eq!(e.message(), format!("Failed to get id from mref x#abc : {}!", cause));
    assert_eq!(e.message(), "Failed to get id from mref x#abc : invalid digit found in string!");
}

#[test]
fn format_label_of_a_label_is_the_label() {
    for (s, n) in [("  hello\nworld", 10), ("", 3), (" \n", 5), ("abcdefghijkl", 5), ("abc", 3), ("éé", 4)] {
        let once = format_label(s, n);
        assert_eq!(format_label(&once, n), once, "{:?} {}", s, n);
    }
}

#[test]
fn player_transitions() {
    assert_eq!(
        transition(State::Playing, Command::Pause),
        Transition { order: Some(Order::Pause), sent: State::Paused, not_sent: State::Paused }
    );
    assert_eq!(
        transition(State::Paused, Command::Pause),
        Transition { order: Some(Order::Play), sent: State::Playing, not_sent: State::Playing }
    );
    assert_eq!(
        transition(State::Stopped, Command::Pause),
        Transition { order: None, sent: State::Stopped, not_sent: State::Stopped }
    );
    assert_eq!(
        transition(State::Stopped, Command::Start),
        Transition { order: Some(Order::Start), sent: State::Playing, not_sent: State::Stopped }
    );
    assert_eq!(
        transition(State::Stopped, Command::Stop),
        Transition { order: None, sent: State::Stopped, not_sent: State::Stopped }
    );
    assert_eq!(
        transition(State::Paused, Command::Stop),
        Transition { order: Some(Order::Stop), sent: State::Stopped, not_sent: State::Paused }
    );
    assert_eq!(
        transition(State::Playing, Command::Exit),
        Transition { order: Some(Order::Exit), sent: State::Stopped, not_sent: State::Playing }
    );
}

#[test]
fn midi_outputs_have_at_most_16_channels() {
    assert_eq!(check_midi_channels("m", 16), Ok(()));
    assert_eq!(check_midi_channels("m", 0), Ok(()));
    assert_eq!(
        check_midi_channels("m", 17),
        Err("Midi output m have 17 channels instead of 16 maximum!".to_string())
    );
}

#[test]
fn pitch_error_message_names_the_count() {
    assert_eq!(
        PitchError::InvalidShiftCount(12).message(),
        "Tseq pitchline notes shift count 12 invalide!"
    );
}

#[test]
fn playback_steps() {
    let s = initial_playback();
    assert_eq!(s, PlaybackState { tick: 0, start_tick: 0, end_tick: i64::MAX });
    let s = PlaybackState { tick: 5, start_tick: 2, end_tick: 20 };
    assert_eq!(playback_step(s, None, 8), (s, PlayerStep::Render(8)));
    assert_eq!(playback_step(s, Some(Order::Play), 8), (s, PlayerStep::Render(8)));
    let at_start = PlaybackState { tick: 2, ..s };
    assert_eq!(playback_step(s, Some(Order::Start), 8), (at_start, PlayerStep::Render(8)));
    assert_eq!(playback_step(s, Some(Order::Stop), 8), (at_start, PlayerStep::WaitOrder));
    assert_eq!(playback_step(s, Some(Order::Pause), 8), (s, PlayerStep::WaitOrder));
    assert_eq!(playback_step(s, Some(Order::Exit), 8), (s, PlayerStep::Exit));
    let near_end = PlaybackState { tick: 15, ..s };
    assert_eq!(playback_step(near_end, None, 8), (near_end, PlayerStep::Render(5)));
    let past_end = PlaybackState { tick: 21, ..s };
    assert_eq!(playback_step(past_end, None, 8), (at_start, PlayerStep::Render(8)));
    let at_end = PlaybackState { tick: 20, ..s };
    assert_eq!(playback_step(at_end, None, 8), (at_end, PlayerStep::Render(0)));
    assert_eq!(resume(s, Order::Exit, 8), (s, PlayerStep::Exit));
    assert_eq!(resume(s, Order::Stop, 8), (s, PlayerStep::Render(8)));
    assert_eq!(advance(s, 3), PlaybackState { tick: 8, ..s });
    let whole = PlaybackState { tick: 10, start_tick: 0, end_tick: i64::MAX };
    assert_eq!(playback_step(whole, None, 1024), (whole, PlayerStep::Render(1024)));
}
