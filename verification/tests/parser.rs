use tseq::parser::{
    beat, chord, chords, end, hits, id, line_comment, multiline_comment, parse, part, pitchs,
    seq_ref, seqout, sequence, velocities, durations, midiout, Expression, PBeat, PChordLine,
    PError, PFragment, PNumber, PPart, PPitch, PPitchLine, PSeqRef, PSequence, PTransition,
    ParseError,
};

fn num(n: &PNumber) -> f32 {
    n.text.parse::<f32>().unwrap()
}

fn opt_num(n: &Option<PNumber>) -> Option<f32> {
    n.as_ref().map(num)
}

#[test]
fn test_beat() {
    assert_eq!(
        beat("beat Id06 : 09\n"),
        Ok(("", Expression::Beat(PBeat { id: "Id06".to_string(), bpm: 9 })))
    );
    assert_eq!(
        beat("beat  9zZ:9  \n"),
        Ok(("", Expression::Beat(PBeat { id: "9zZ".to_string(), bpm: 9 })))
    );
    assert_eq!(
        beat("beat titi   : 90\n"),
        Ok(("", Expression::Beat(PBeat { id: "titi".to_string(), bpm: 90 })))
    );
}

#[test]
fn test_chord() {
    let (rest, e) = chord("chord c : 1 1.5-2 3/2-0.1-.4\n").unwrap();
    assert_eq!(rest, "");
    match e {
        Expression::Chord(c) => {
            assert_eq!(c.id, "c");
            assert_eq!(c.harmonics.len(), 3);
            let h0 = &c.harmonics[0];
            assert_eq!((num(&h0.freq_ratio.num), num(&h0.freq_ratio.den)), (1., 1.));
            assert_eq!(opt_num(&h0.delay), None);
            assert!(h0.velocity.is_none());
            let h1 = &c.harmonics[1];
            assert_eq!((num(&h1.freq_ratio.num), num(&h1.freq_ratio.den)), (1.5, 1.));
            assert_eq!(opt_num(&h1.delay), Some(2.));
            assert!(h1.velocity.is_none());
            let h2 = &c.harmonics[2];
            assert_eq!((num(&h2.freq_ratio.num), num(&h2.freq_ratio.den)), (3., 2.));
            assert_eq!(opt_num(&h2.delay), Some(0.1));
            let v = h2.velocity.as_ref().unwrap();
            assert_eq!(num(&v.value), 0.4);
            assert_eq!(v.transition, PTransition::NoTransition);
        }
        _ => panic!("not a chord"),
    }
}

#[test]
fn test_chords() {
    assert_eq!(
        chords("chords cs : c1 c2 c3 \n"),
        Ok((
            "",
            Expression::ChordLine(PChordLine {
                id: "cs".to_string(),
                chords: vec!["c1".to_string(), "c2".to_string(), "c3".to_string()]
            }),
        ))
    );
}

fn hitline(input: &str) -> (String, Vec<(f32, Option<f32>)>, f32) {
    let (rest, e) = hits(input).unwrap();
    assert_eq!(rest, "");
    match e {
        Expression::HitLine(h) => (
            h.id,
            h.hits.iter().map(|x| (num(&x.position), opt_num(&x.duration))).collect(),
            num(&h.duration),
        ),
        _ => panic!("not a hit line"),
    }
}

#[test]
fn test_hits() {
    assert_eq!(
        hitline("hits p1: 0.5 .75 / 1\n"),
        ("p1".to_string(), vec![(0.5, None), (0.75, None)], 1.0)
    );
    assert_eq!(
        hitline("hits p1: 0.5-.2 .75 - .3 / 1\n"),
        ("p1".to_string(), vec![(0.5, Some(0.2)), (0.75, Some(0.3))], 1.0)
    );
}

#[test]
fn test_velos() {
    let (rest, e) = velocities("velocities v1: .5 ~ 1 .75=0.9\n").unwrap();
    assert_eq!(rest, "");
    match e {
        Expression::VelocityLine(v) => {
            assert_eq!(v.id, "v1");
            let got: Vec<(f32, PTransition)> =
                v.velocities.iter().map(|x| (num(&x.value), x.transition)).collect();
            assert_eq!(
                got,
                vec![
                    (0.5, PTransition::Sin),
                    (1., PTransition::NoTransition),
                    (0.75, PTransition::Linear),
                    (0.9, PTransition::NoTransition),
                ]
            );
        }
        _ => panic!("not a velocity line"),
    }
}

#[test]
fn test_pitchs() {
    assert_eq!(
        pitchs("pitchs blank :\n"),
        Ok(("", Expression::PitchLine(PPitchLine { id: "blank".to_string(), pitchs: vec![] }),))
    );
    let p = |id: &str, transition| PPitch { id: id.to_string(), transition };
    assert_eq!(
        pitchs("pitchs intro : G9 = B7~e5 > f2 <a0  \n"),
        Ok((
            "",
            Expression::PitchLine(PPitchLine {
                id: "intro".to_string(),
                pitchs: vec![
                    p("G9", PTransition::Linear),
                    p("B7", PTransition::Sin),
                    p("e5", PTransition::Late),
                    p("f2", PTransition::Early),
                    p("a0", PTransition::NoTransition),
                ]
            }),
        ))
    );
}

fn a_part(input: &str) -> (&str, String, Option<String>, Option<String>, Option<String>, Option<String>, Option<f32>) {
    let (rest, f) = part(input).unwrap();
    match f {
        PFragment::Part(p) => (
            rest,
            p.hitline_id,
            p.durationline_id,
            p.pitchline_id,
            p.chordline_id,
            p.velocityline_id,
            opt_num(&p.mul),
        ),
        _ => panic!("not a part"),
    }
}

fn s(x: &str) -> Option<String> {
    Some(x.to_string())
}

#[test]
fn test_part() {
    assert_eq!(a_part("p-n-v*3"), ("", "p".to_string(), None, s("n"), None, s("v"), Some(3.)));
    assert_eq!(a_part("p-n * 3 "), ("", "p".to_string(), None, s("n"), None, None, Some(3.)));
    assert_eq!(a_part("p-n-v0"), ("", "p".to_string(), None, s("n"), None, s("v0"), None));
    assert_eq!(a_part("p1*3 "), ("", "p1".to_string(), None, None, None, None, Some(3.)));
    assert_eq!(a_part("p-n-v*3"), ("", "p".to_string(), None, s("n"), None, s("v"), Some(3.)));
    assert_eq!(a_part("4_p0f"), ("", "4_p0f".to_string(), None, None, None, None, None));
}

#[test]
fn test_seq_ref() {
    assert_eq!(
        seq_ref("@s_01"),
        Ok(("", PFragment::SeqRef(PSeqRef { id: "s_01".to_string(), mul: None }),))
    );
    assert_eq!(
        seq_ref("@1sr_ *2"),
        Ok(("", PFragment::SeqRef(PSeqRef { id: "1sr_".to_string(), mul: Some(2) }),))
    );
}

#[test]
fn test_sequence() {
    let (rest, q) = sequence(" seq_03:/ _b_ @s_1 p1 p1-n2 @s_2*3 p2-n1-v1 * 2 \n").unwrap();
    assert_eq!(rest, "");
    assert_eq!(q.id, "seq_03");
    assert_eq!(q.beat, s("_b_"));
    assert_eq!(q.fragments.len(), 5);
    assert_eq!(q.fragments[0], PFragment::SeqRef(PSeqRef { id: "s_1".to_string(), mul: None }));
    assert_eq!(
        q.fragments[1],
        PFragment::Part(PPart {
            hitline_id: "p1".to_string(),
            durationline_id: None,
            pitchline_id: None,
            chordline_id: None,
            velocityline_id: None,
            mul: None,
        })
    );
    assert_eq!(
        q.fragments[2],
        PFragment::Part(PPart {
            hitline_id: "p1".to_string(),
            durationline_id: None,
            pitchline_id: s("n2"),
            chordline_id: None,
            velocityline_id: None,
            mul: None,
        })
    );
    assert_eq!(q.fragments[3], PFragment::SeqRef(PSeqRef { id: "s_2".to_string(), mul: Some(3) }));
    match &q.fragments[4] {
        PFragment::Part(p) => {
            assert_eq!(p.hitline_id, "p2");
            assert_eq!(p.durationline_id, None);
            assert_eq!(p.pitchline_id, s("n1"));
            assert_eq!(p.chordline_id, None);
            assert_eq!(p.velocityline_id, s("v1"));
            assert_eq!(opt_num(&p.mul), Some(2.));
        }
        _ => panic!("not a part"),
    }
}

fn seq_s1() -> PSequence {
    PSequence {
        id: "s".to_string(),
        beat: None,
        fragments: vec![PFragment::SeqRef(PSeqRef { id: "s_1".to_string(), mul: None })],
    }
}

#[test]
fn test_seq() {
    assert_eq!(tseq::parser::seq("seq s : @s_1\n"), Ok(("", Expression::Sequence(seq_s1()))));
}

#[test]
fn test_seqout() {
    assert_eq!(seqout("seqout   s : @s_1 \n"), Ok(("", Expression::SeqOut(seq_s1()))));
}

#[test]
fn test_line_comment() {
    assert_eq!(line_comment(";; this is a comment !\n"), Ok(("", Expression::Nothing)));
    assert_eq!(line_comment(";; this is a comment !\n\n\n"), Ok(("", Expression::Nothing)));
}

#[test]
fn test_end() {
    assert_eq!(end("\n"), Ok(("", Expression::Nothing)));
    assert_eq!(end("\n   \n"), Ok(("", Expression::Nothing)));
    assert_eq!(end(" \n\n  \n"), Ok(("", Expression::Nothing)));
}

#[test]
fn test_parse() {
    let res = parse("\n;; 90 BPM\nbeat b : 90\n\nvelocities v: 1\n\n").unwrap();
    assert_eq!(res.len(), 4);
    assert_eq!(res[0], Expression::Nothing);
    assert_eq!(res[1], Expression::Nothing);
    assert_eq!(res[2], Expression::Beat(PBeat { id: "b".to_string(), bpm: 90 }));
    match &res[3] {
        Expression::VelocityLine(v) => {
            assert_eq!(v.id, "v");
            assert_eq!(v.velocities.len(), 1);
            assert_eq!(num(&v.velocities[0].value), 1.);
            assert_eq!(v.velocities[0].transition, PTransition::NoTransition);
        }
        _ => panic!("not a velocity line"),
    }
}

fn nom_float(s: &str) -> Result<(&str, f32), bool> {
    match nom::number::complete::float::<&str, nom::error::Error<&str>>(s) {
        Ok((rest, f)) => Ok((rest, f)),
        Err(nom::Err::Failure(_)) => Err(true),
        Err(_) => Err(false),
    }
}

#[test]
fn number_reads_what_nom_float_reads() {
    let inputs = [
        "0", "12", "-3", "+4", "1.", "1.5", ".5", "-.5", "+.25", "1e5", "1E-5", "1.5e+3",
        "2.e3", "1e", "1e+", "1ex", "e5", ".", "-", "+", "abc", "nan", "NaN", "inf", "INF",
        "infinity", "-inf", "+nan", "12abc", "1.2.3", "", " 1", "1 ", "3/2", "007", "9-0.5",
        "0.000001", "123456789012345678901234567890", "1e40", "-0",
    ];
    for s in inputs.iter() {
        let mine = tseq::parser::number(s);
        match (mine, nom_float(s)) {
            (Ok((rest, n)), Ok((nom_rest, f))) => {
                assert_eq!(rest, nom_rest, "rest of {:?}", s);
                let v: f32 = n.text.parse().unwrap();
                assert!(v == f || (v.is_nan() && f.is_nan()), "value of {:?}", s);
            }
            (Err(PError::Failure(p)), Err(true)) => assert_eq!(p, 0, "{:?}", s),
            (Err(PError::Error), Err(false)) => {}
            (m, n) => panic!("{:?}: {:?} against {:?}", s, m, n),
        }
    }
}

#[test]
fn parse_error_messages() {
    let text = "beat b : 90";
    let e = parse(text).unwrap_err();
    assert_eq!(e, ParseError::Unparsed(text.to_string()));
    assert_eq!(e.message(), format!("tseq parser error : {:?}", text));
    let text = "velocities v: 1\nchords c : a\nvelocities w: 2e\"x\n";
    let e = parse(text).unwrap_err();
    assert_eq!(e, ParseError::Syntax("2e\"x\n".to_string()));
    let failure: nom::Err<nom::error::Error<&str>> = nom::Err::Failure(nom::error::Error {
        input: "2e\"x\n",
        code: nom::error::ErrorKind::Float,
    });
    assert_eq!(e.message(), format!("tseq parser error : {:?}", failure));
    assert_eq!(
        nom::number::complete::float::<&str, nom::error::Error<&str>>("2e\"x\n"),
        Err(failure)
    );
}
