use ppgg::bits::{get_bit_mask_checked, parse_fields};
use ppgg::fasta::FastaFile;
use ppgg::genome::{PersonalizedGenome, SequenceTape};
use ppgg::gir::GIR;
use ppgg::haplotype::HaplotypeInstruction;
use ppgg::instruction::Instruction;
use ppgg::mask::BitMask;
use ppgg::mutation::{MutatedString, Mutation, MutationType};
use ppgg::parser::{get_type, parse_amino_acid_seq_position, split_csq_string};
use ppgg::task::Task;
use ppgg::transcript::{DiagConfig, TranscriptInstruction};
use ppgg::vcf::{AltTranscript, VCFRecords};
use ppgg::Engine;

const REFERENCE: &str = "MEDLGENTMVLSTLRSLNNFISQRVEGGSGLEELERGG";
const NAME: &str = "ENST00000406869";

fn csq(kind: &str, change: &str) -> String {
    format!("{}|MAD1L1|{}|protein_coding|-|{}|1936821C>T", kind, NAME, change)
}

fn compile(changes: &[(&str, &str)], reference: &str) -> GIR {
    let muts = changes.iter().map(|(k, c)| csq(k, c)).collect::<Vec<String>>();
    let alt = AltTranscript::new(NAME.to_string(), muts);
    let fasta = FastaFile::new(vec![(NAME.to_string(), reference.to_string())]);
    let t = TranscriptInstruction::from_alt_transcript(alt, &fasta).unwrap();
    t.get_g_rep(&fasta).unwrap()
}

fn run(changes: &[(&str, &str)]) -> String {
    let (out, _) = compile(changes, REFERENCE).execute(Engine::ST);
    out.iter().collect::<String>()
}

fn check_dense(g: &GIR) {
    let tasks = g.get_tasks();
    let mut next = 0usize;
    for t in tasks.iter() {
        if t.exe_code == 2 {
            continue;
        }
        assert_eq!(t.start_pos_res, next);
        next += t.length;
        let arena = if t.exe_code == 0 { g.ref_stream.len() } else { g.alt_stream.len() };
        assert!(t.start_pos + t.length <= arena);
    }
    assert_eq!(next, g.res_array.len());
}

#[test]
fn scenario_star_missense() {
    let out = run(&[("*missense", "5G>5H")]);
    assert_eq!(out.len(), 38);
    for (i, (a, b)) in out.chars().zip(REFERENCE.chars()).enumerate() {
        if i == 4 {
            assert_eq!(a, 'H');
        } else {
            assert_eq!(a, b);
        }
    }
}

#[test]
fn scenario_inframe_insertion() {
    let out = run(&[("inframe_insertion", "5G>5GTEST")]);
    assert_eq!(out.len(), 42);
    assert_eq!(&out[0..4], &REFERENCE[0..4]);
    assert_eq!(&out[4..9], "GTEST");
    assert_eq!(&out[9..42], &REFERENCE[5..38]);
}

#[test]
fn scenario_frameshift() {
    let out = run(&[("frameshift", "10V>10VTESTFRAMESHIFT")]);
    assert_eq!(out, format!("{}VTESTFRAMESHIFT", &REFERENCE[0..9]));
}

#[test]
fn scenario_inframe_deletion() {
    let out = run(&[("inframe_deletion", "10VLSTLR>10R")]);
    assert_eq!(out, format!("{}R{}", &REFERENCE[0..9], &REFERENCE[15..38]));
}

#[test]
fn scenario_stop_gained() {
    let out = run(&[("stop_gained", "37G>37*")]);
    assert_eq!(out, &REFERENCE[0..36]);
}

#[test]
fn scenario_stop_lost() {
    let out = run(&[("stop_lost", "39*>39TEST")]);
    assert_eq!(out, format!("{}TEST", REFERENCE));
}

#[test]
fn scenario_stop_lost_at_last_residue() {
    let out = run(&[("stop_lost", "38G*>39TEST")]);
    assert_eq!(out, format!("{}TEST", REFERENCE));
}

#[test]
fn scenario_start_lost() {
    let muts = vec![format!("start_lost|MAD1L1|{}|protein_coding", NAME)];
    let alt = AltTranscript::new(NAME.to_string(), muts);
    let fasta = FastaFile::new(vec![(NAME.to_string(), REFERENCE.to_string())]);
    let t = TranscriptInstruction::from_alt_transcript(alt, &fasta).unwrap();
    assert_eq!(t.compute_expected_results_array_size(), Some(0));
    let g = t.get_g_rep(&fasta).unwrap();
    assert_eq!(g.ref_stream.len(), 0);
    let (out, ann) = g.execute(Engine::ST);
    assert_eq!(out.len(), 0);
    assert_eq!(ann, vec![(NAME.to_string(), (0usize, 0usize))]);
}

#[test]
fn dense_layout_and_containment() {
    let cases: Vec<Vec<(&str, &str)>> = vec![
        vec![("inframe_insertion", "5G>5GTEST"), ("inframe_insertion", "10V>10VECT")],
        vec![("inframe_deletion", "10VLSTLR>10R"), ("inframe_deletion", "28GSGLE>28E")],
        vec![("missense", "3D>3K"), ("frameshift", "20F>20FAB")],
        vec![("stop_lost", "39*>39TEST")],
    ];
    for c in cases.iter() {
        let g = compile(c, REFERENCE);
        check_dense(&g);
        assert_eq!(g.get_annotation()[0].1, (0, g.res_array.len()));
    }
}

#[test]
fn engines_agree() {
    let changes = [("inframe_insertion", "5G>5GTEST"), ("inframe_deletion", "28GSGLE>28E")];
    let (st, _) = compile(&changes, REFERENCE).execute(Engine::ST);
    let (mt, _) = compile(&changes, REFERENCE).execute(Engine::MT);
    let (gpu, _) = compile(&changes, REFERENCE).execute(Engine::GPU);
    assert_eq!(st, mt);
    assert_eq!(st, gpu);
    assert_eq!(st.len(), 42 - 4);
}

#[test]
fn asterisk_after_stop_is_dropped() {
    let m1 = Mutation::new(vec!["stop_gained".to_string(), NAME.to_string(), "5G>5*".to_string()]).unwrap();
    let m2 = Mutation::new(vec!["*missense".to_string(), NAME.to_string(), "10V>10H".to_string()]).unwrap();
    let all = vec![m1.clone(), m2.clone()];
    assert_eq!(Instruction::from_mutation(&m2, &all).get_code(), 'E');
    assert_eq!(Instruction::from_mutation(&m2, &vec![m2.clone()]).get_code(), 'N');
    let out = run(&[("stop_gained", "5G>5*"), ("*missense", "10V>10H")]);
    assert_eq!(out, &REFERENCE[0..4]);
}

#[test]
fn bitmask_round_trip() {
    for word in [0u32, 1, 2, 3, 1024, 10922, 0x3FFF_FFFF, 0xFFFF_FFFF].iter() {
        let text = if *word == 0 { "0,0".to_string() } else { format!("{}$", word) };
        let mask = BitMask::from_string(&text);
        let mut again = 0u64;
        if let Some((h1, h2)) = mask.get_indices() {
            for i in h1 {
                again += 1u64 << (2 * i);
            }
            for i in h2 {
                again += 2u64 << (2 * i);
            }
        }
        assert_eq!(again, *word as u64);
    }
}

#[test]
fn bitmask_two_words() {
    let mask = BitMask::from_string(&"3,2".to_string());
    let (h1, h2) = mask.get_indices().unwrap();
    assert_eq!(h1, vec![0]);
    assert_eq!(h2, vec![0, 15]);
}

#[test]
fn outdated_bitmask_is_refused() {
    assert!(get_bit_mask_checked(&"0|1:.:-1".to_string()).is_err());
    assert!(get_bit_mask_checked(&"0|1:.:-1,3,0".to_string()).is_err());
    assert_eq!(get_bit_mask_checked(&"0|1:.:3,0".to_string()).unwrap(), "3$");
    assert_eq!(parse_fields("-0".to_string()), "-0$");
}

#[test]
fn same_position_mutations_are_skipped() {
    let muts = vec![csq("frameshift", "10V>10AB"), csq("frameshift", "10V>10CD")];
    let alt = AltTranscript::new(NAME.to_string(), muts);
    let fasta = FastaFile::new(vec![(NAME.to_string(), REFERENCE.to_string())]);
    let t = TranscriptInstruction::from_alt_transcript(alt, &fasta).unwrap();
    assert!(t.get_g_rep(&fasta).is_err());
}

#[test]
fn missing_reference_is_an_error() {
    let alt = AltTranscript::new(NAME.to_string(), vec![csq("missense", "5G>5H")]);
    let fasta = FastaFile::new(vec![("OTHER".to_string(), REFERENCE.to_string())]);
    assert!(TranscriptInstruction::from_alt_transcript(alt, &fasta).is_err());
}

#[test]
fn fasta_last_record_wins() {
    let fasta = FastaFile::new(vec![("A".to_string(), "KKK".to_string()), ("A".to_string(), "LL".to_string())]);
    assert_eq!(fasta.get_record(&"A".to_string()).unwrap(), "LL");
    assert!(!fasta.is_in_records(&"B".to_string()));
}

#[test]
fn haplotype_assembly_moves_offsets() {
    let a = "MKV".to_string();
    let b = "MEDLG".to_string();
    let fasta = FastaFile::new(vec![("TA".to_string(), a.clone()), ("TB".to_string(), b.clone())]);
    let ta = AltTranscript::new("TA".to_string(), vec!["missense|G|TA|protein_coding|-|2K>2R|1A>T".to_string()]);
    let tb = AltTranscript::new("TB".to_string(), vec!["inframe_insertion|G|TB|protein_coding|-|3D>3DQQ|1A>T".to_string()]);
    let mut h = HaplotypeInstruction::from_vec_t_ins(vec![ta, tb], Engine::ST, &fasta);
    let g = h.get_g_rep(&fasta, Engine::ST);
    check_dense(&g);
    let (out, ann) = g.execute(Engine::ST);
    let s = out.iter().collect::<String>();
    assert_eq!(s, "MRVMEDQQLG");
    assert_eq!(ann, vec![("TA".to_string(), (0, 3)), ("TB".to_string(), (3, 10))]);
    let tape = SequenceTape::new(s, ann).unwrap();
    assert_eq!(tape.get_seq(&"TB".to_string()).unwrap(), "MEDQQLG");
}

#[test]
fn sequence_tape_rejects_long_ranges() {
    assert!(SequenceTape::new("ABC".to_string(), vec![("x".to_string(), (0, 4))]).is_err());
    let t = SequenceTape::new("ABC".to_string(), vec![("x".to_string(), (1, 3))]).unwrap();
    assert!(t.get_seq(&"y".to_string()).is_err());
    assert_eq!(SequenceTape::get_max_index(&vec![("x".to_string(), (1, 3)), ("y".to_string(), (0, 2))]), 3);
}

#[test]
fn task_phi_copies_nothing() {
    let mut res = vec!['x'; 3];
    Task::new(2, 0, 2, 0).execute(&mut res, &vec!['a', 'b'], &vec![]);
    assert_eq!(res, vec!['x'; 3]);
    Task::new(1, 1, 2, 1).execute(&mut res, &vec![], &vec!['p', 'q', 'r']);
    assert_eq!(res, vec!['x', 'q', 'r']);
}

#[test]
fn parsing_errors() {
    assert!(Mutation::new(vec!["missense".to_string(), NAME.to_string(), "0K>0R".to_string()]).is_err());
    assert!(Mutation::new(vec!["missense".to_string(), NAME.to_string(), "5K>5R>5Q".to_string()]).is_err());
    assert!(parse_amino_acid_seq_position("70000K").is_err());
    assert_eq!(parse_amino_acid_seq_position("65535KQ").unwrap(), (65535, "KQ".to_string()));
    assert!(split_csq_string(&"missense|G|T|lincRNA|-|5K>5R|1A>T".to_string()).is_err());
    assert_eq!(split_csq_string(&"start_lost|G|T|protein_coding".to_string()).unwrap(),
        vec!["start_lost".to_string(), "T".to_string(), "1M>1*".to_string()]);
    assert_eq!(get_type(&"stop_lost|G|T".to_string()), "stop_lost");
    assert_eq!(MutatedString::from_str("K*").unwrap(), MutatedString::EndSequence("K*".to_string()));
    assert_eq!(MutationType::from_str("start_lost&splice_region").unwrap(), MutationType::StartLostAndSpliceRegion);
    assert!(Engine::from_str("cpu").is_err());
    assert_eq!(Engine::from_str("GPU").unwrap(), Engine::GPU);
}

#[test]
fn predicted_size_formulas() {
    let t = |code: char, pos: usize, data: &str, len: usize| {
        TranscriptInstruction::new("T".to_string(), 50,
            vec![Instruction::new(code, false, pos, pos, len, data.chars().collect())])
    };
    assert_eq!(t('I', 10, "ABC", 3).compute_expected_results_array_size(), Some(52));
    assert_eq!(t('D', 10, "A", 2).compute_expected_results_array_size(), Some(48));
    assert_eq!(t('G', 10, "", 0).compute_expected_results_array_size(), Some(10));
    assert_eq!(t('L', 49, "XY", 2).compute_expected_results_array_size(), Some(52));
    assert_eq!(t('W', 50, "XY", 2).compute_expected_results_array_size(), Some(52));
    assert_eq!(t('B', 10, "ABC", 3).compute_expected_results_array_size(), Some(13));
    assert_eq!(t('3', 10, "ABC", 1).compute_expected_results_array_size(), Some(52));
    assert_eq!(t('Y', 10, "ABC", 3).compute_expected_results_array_size(), Some(14));
    assert_eq!(t('?', 10, "", 0).compute_expected_results_array_size(), None);
    assert_eq!(t('G', 60, "", 0).compute_expected_results_array_size(), Some(60));
}

#[test]
fn routing_selects_by_bitmask() {
    let line = format!("1\t100\t.\tA\tT\t.\tPASS\tAC=1;BCSQ={},{}\tGT\t0|1:2\t1|1:3",
        csq("missense", "5G>5H"), csq("frameshift", "9M>9AB"));
    let records = VCFRecords::new(vec![line]);
    let per_sample = records.get_csq_per_patient(2).unwrap();
    assert_eq!(per_sample[0].0.len(), 0);
    assert_eq!(per_sample[0].1, vec![csq("missense", "5G>5H")]);
    assert_eq!(per_sample[1].0, vec![csq("missense", "5G>5H")]);
    assert_eq!(per_sample[1].1, vec![csq("missense", "5G>5H")]);
}

#[test]
fn fasta_text_of_a_sample() {
    let t1 = SequenceTape::new("ABCD".to_string(), vec![("x".to_string(), (0, 2)), ("y".to_string(), (2, 4))]).unwrap();
    let t2 = SequenceTape::new("QQ".to_string(), vec![("x".to_string(), (0, 2))]).unwrap();
    let g = PersonalizedGenome::new("s1".to_string(), t1, t2);
    let fasta = FastaFile::new(vec![("x".to_string(), "MM".to_string()), ("z".to_string(), "KK".to_string())]);
    assert_eq!(g.fasta_text(false, &fasta), ">x_1\nAB\n>y_1\nCD\n>x_2\nQQ\n");
    assert_eq!(g.fasta_text(true, &fasta), ">x_1\nAB\n>y_1\nCD\n>x_2\nQQ\n>z_1\nKK\n>z_2\nKK\n");
}

#[test]
fn overlap_inspection() {
    let fasta = FastaFile::new(vec![(NAME.to_string(), REFERENCE.to_string())]);
    let same = AltTranscript::new(NAME.to_string(), vec![csq("missense", "10V>10H"), csq("missense", "10V>10K")]);
    let t = TranscriptInstruction::from_alt_transcript(same.clone(), &fasta).unwrap();
    assert!(t.inspect_overlaps().is_err());
    let on = DiagConfig { inspect_ins_gen: true };
    assert!(TranscriptInstruction::from_alt_transcript_with(same.clone(), &fasta, on).is_err());
    assert!(TranscriptInstruction::from_alt_transcript_with(same, &fasta, DiagConfig { inspect_ins_gen: false }).is_ok());
    let apart = AltTranscript::new(NAME.to_string(), vec![csq("missense", "5G>5H"), csq("missense", "20F>20K")]);
    let t = TranscriptInstruction::from_alt_transcript(apart, &fasta).unwrap();
    assert!(t.inspect_overlaps().is_ok());
    let after_deletion = AltTranscript::new(NAME.to_string(),
        vec![csq("inframe_deletion", "10VLSTLR>10R"), csq("missense", "13T>13K")]);
    let t = TranscriptInstruction::from_alt_transcript(after_deletion, &fasta).unwrap();
    assert!(t.inspect_overlaps().is_err());
}

#[test]
fn haplotype_size_predictions() {
    let fasta = FastaFile::new(vec![("TA".to_string(), "MKV".to_string()), ("TB".to_string(), "MEDLG".to_string())]);
    let ta = AltTranscript::new("TA".to_string(), vec!["missense|G|TA|protein_coding|-|2K>2R|1A>T".to_string()]);
    let tb = AltTranscript::new("TB".to_string(), vec!["inframe_insertion|G|TB|protein_coding|-|3D>3DQQ|1A>T".to_string()]);
    let h = HaplotypeInstruction::from_vec_t_ins(vec![ta, tb], Engine::ST, &fasta);
    assert_eq!(h.get_size_results_array(), Some(10));
    assert_eq!(h.get_size_alt_array(), 4);
    assert_eq!(h.get_expected_number_of_tasks(), 6);
    assert_eq!(h.get_size_ref_array(&fasta), Some(8));
    let other = FastaFile::new(vec![("TA".to_string(), "MKV".to_string())]);
    assert_eq!(h.get_size_ref_array(&other), None);
}

#[test]
fn bitmask_words_round_trip() {
    let words = [3u32, 0x2AAA_AAAA, 0x1555_5555, 9];
    let text = words.iter().map(|w| w.to_string()).collect::<Vec<_>>().join(",");
    let (h1, h2) = BitMask::from_string(&text).get_indices().unwrap();
    for (k, w) in words.iter().enumerate() {
        let mut again = 0u64;
        for i in h1.iter().filter(|i| **i >= 15 * k && **i < 15 * k + 15) {
            again += 1u64 << (2 * (i - 15 * k));
        }
        for i in h2.iter().filter(|i| **i >= 15 * k && **i < 15 * k + 15) {
            again += 2u64 << (2 * (i - 15 * k));
        }
        assert_eq!(again, *w as u64);
    }
}

#[test]
fn substitution_keeps_its_positions() {
    let m = Mutation::new(vec!["missense&inframe_altering".to_string(), NAME.to_string(), "22LKM>23LKMAB".to_string()]).unwrap();
    let ins = Instruction::from_mutation(&m, &vec![m.clone()]);
    assert_eq!(ins.get_code(), '3');
    assert_eq!(ins.get_position_ref(), 21);
    assert_eq!(ins.get_position_res(), 22);
    assert_eq!(ins.get_length(), 3);
}

#[test]
fn equal_positions_keep_their_order_when_sorted() {
    let mut alt = AltTranscript::new(NAME.to_string(), vec![csq("missense", "9M>9A"), csq("missense", "5G>5K"),
        csq("frameshift", "5G>5QQ")]);
    alt.sort_alterations();
    let kinds = alt.get_alts().iter().map(|m| m.mut_type).collect::<Vec<_>>();
    assert_eq!(kinds, vec![MutationType::MisSense, MutationType::FrameShift, MutationType::MisSense]);
    assert_eq!(alt.get_alts()[0].mut_info.ref_aa_position, 4);
}
