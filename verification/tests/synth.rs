use oxid64::synth::ambiguity::{analyze_encoded, bench_like_encoded, is_ambiguous_byte, parse_sizes, SizesError, Stats};
use oxid64::synth::check_values::{
    build_buckets, check_bucket, hash_nibble, parse_table, strict_alphabet_lut, synthesize_check_values, CheckBucket,
    CheckHashSpec, TableError,
};
use oxid64::synth::hash_resynth::{
    baseline_tables, derive_check_values, derive_delta_values, derive_poison_delta_values_80, evaluate_table,
    local_search, HashFamily, HashSpec, HashTables, IndexMode, MixOp, Score, XorShift64,
};
use oxid64::synth::poisoned_map::{evaluate_current_table, synthesize_delta_values, BucketError};
use oxid64::synth::ranking::{candidate_specs, rank_candidates, required_delta_lut};
use oxid64::synth::split_predicate::{
    buckets_for_pair, buckets_for_pred, candidate_precedes, evaluate_all_pairs, evaluate_pair, evaluate_pred,
    feasible_counts, first_minimum, option1_mixed_buckets, option2_impossible_buckets, pred_bit, sort_candidates,
    standard_predicates, PredKind, PredSpec,
};
use oxid64::synth::strict_table::{bucket_counts, feasible_t_values};
use oxid64::synth::{delta_hash_nibble, hash_buckets, is_base64_valid_strict_simd, sat_add_i8};

const CURRENT_HASH: HashSpec =
    HashSpec { shift: 3, mix: MixOp::Avg, index_mode: IndexMode::Maskless, family: HashFamily::OneLut };

const EXAMPLE_TABLE: [u8; 16] =
    [0x4a, 0x7a, 0x6a, 0x8a, 0x3a, 0x7a, 0x9a, 0x4a, 0x7a, 0x2a, 0xf9, 0x5b, 0xcd, 0xad, 0x1d, 0xbb];

fn valid_lut() -> [bool; 256] {
    strict_alphabet_lut()
}

fn score_tuple(s: Score) -> (u32, u32, u32, u32, u32, u32, u32) {
    (
        s.map_conflict_buckets,
        s.valid_msb_violations,
        s.ascii_msb_violations,
        s.impossible_buckets,
        s.mixed_buckets,
        s.feasible_width_sum,
        s.poison_impossible_buckets,
    )
}

// ---------------------------------------------------------------------------
// Byte classes and the decoders' hash
// ---------------------------------------------------------------------------

#[test]
fn strict_alphabet_has_64_bytes() {
    let lut = valid_lut();
    assert_eq!(lut.iter().filter(|&&v| v).count(), 64);
    assert!(lut[b'+' as usize] && lut[b'/' as usize] && lut[b'Z' as usize] && lut[b'0' as usize]);
    assert!(!lut[b'=' as usize] && !lut[b'-' as usize] && !lut[0x80]);
    assert!(is_base64_valid_strict_simd(b'q'));
    assert!(!is_base64_valid_strict_simd(b'_'));
}

#[test]
fn saturating_add_clamps() {
    assert_eq!(sat_add_i8(100, 100), 127);
    assert_eq!(sat_add_i8(-100, -100), -128);
    assert_eq!(sat_add_i8(-5, 3), -2);
}

#[test]
fn decoder_hash_buckets_match_the_conflict_analysis() {
    let bk = hash_buckets();
    let counts: Vec<(usize, usize)> = (0..16).map(|h| bucket_counts(&bk, h)).collect();
    assert_eq!(
        counts,
        vec![
            (0, 16),
            (0, 16),
            (0, 16),
            (1, 15),
            (10, 6),
            (13, 3),
            (11, 5),
            (13, 3),
            (11, 5),
            (0, 16),
            (1, 15),
            (0, 16),
            (2, 14),
            (0, 16),
            (2, 14),
            (0, 16)
        ]
    );
    // 'A' (0x41) at the end of a word: avg(1, 0x41 >> 3) & 15.
    assert_eq!(delta_hash_nibble(b'A', 0, 3), 5);
    assert!(bk.contains(5, b'A'));
}

#[test]
fn strict_check_entries_of_the_decoder_hash() {
    let bk = hash_buckets();
    let lens: Vec<usize> = (0..16).map(|h| feasible_t_values(&bk, h).len()).collect();
    assert_eq!(lens, vec![130, 114, 98, 0, 0, 1, 0, 1, 0, 97, 2, 65, 143, 33, 143, 1]);
    assert_eq!(feasible_t_values(&bk, 5), vec![-65]);
    assert_eq!(feasible_t_values(&bk, 10), vec![-47, -46]);
    assert_eq!(feasible_t_values(&bk, 15), vec![-128]);
}

// ---------------------------------------------------------------------------
// Poisoned mapping
// ---------------------------------------------------------------------------

fn error_tuple(e: &BucketError) -> (usize, usize, usize) {
    match e {
        BucketError::Conflict { bucket, .. } => (*bucket, usize::MAX, usize::MAX),
        BucketError::NoCandidate { bucket, valid, invalid } => (*bucket, *valid, *invalid),
    }
}

#[test]
fn poisoned_mapping_is_infeasible_on_the_decoder_hash() {
    let bk = hash_buckets();
    match synthesize_delta_values(&bk, 0x80) {
        Ok(_) => panic!("the decoder hash cannot carry a poisoned mapping"),
        Err(errors) => {
            let got: Vec<(usize, usize, usize)> = errors.iter().map(error_tuple).collect();
            assert_eq!(got, vec![(3, 1, 15), (4, 10, 6), (6, 11, 5), (7, 13, 3), (8, 11, 5), (10, 1, 15), (12, 2, 14)]);
        },
    }
}

#[test]
fn poisoned_mapping_reports_conflicting_offsets() {
    let mut member = vec![false; 16 * 256];
    for b in [b'A', b'a', b'*'] {
        member[b as usize] = true;
    }
    member[256 + b'+' as usize] = true;
    let bk = oxid64::synth::Buckets { member };
    match synthesize_delta_values(&bk, 0x80) {
        Ok(_) => panic!("'A' and 'a' need different offsets"),
        Err(errors) => {
            assert_eq!(errors.len(), 2);
            assert!(matches!(errors[0], BucketError::Conflict { bucket: 0, first: 0xbf, second: 0xb9 }));
            assert!(matches!(errors[1], BucketError::NoCandidate { bucket: 0, valid: 2, invalid: 1 }));
        },
    }
    let mut member = vec![false; 16 * 256];
    member[256 + b'+' as usize] = true;
    member[2 * 256 + b'*' as usize] = true;
    let bk = oxid64::synth::Buckets { member };
    let deltas = synthesize_delta_values(&bk, 0x80).ok().expect("every bucket has an offset");
    assert_eq!(deltas[1], 19);
    assert_eq!(deltas[2], 0x80 - b'*');
    assert_eq!(deltas[0], 0);
}

#[test]
fn current_offsets_map_the_alphabet_exactly() {
    let bk = hash_buckets();
    assert_eq!(evaluate_current_table(&bk, 0x80), (64, 0, 192, 90));
    assert_eq!(evaluate_current_table(&bk, 0x40), (64, 0, 192, 139));
    assert_eq!(evaluate_current_table(&bk, 0xc0), (64, 0, 192, 58));
}

// ---------------------------------------------------------------------------
// Hash search
// ---------------------------------------------------------------------------

#[test]
fn xorshift_sequence() {
    let mut r = XorShift64::new(1);
    assert_eq!(r.next_u64(), 1082269761);
    assert_eq!(r.next_u64(), 1152992998833853505);
    assert_eq!(r.next_u64(), 11177516664432764457);
    let mut z = XorShift64::new(0);
    assert_eq!(z.next_u64(), 16170114104338284980);
    assert_eq!(z.next_u64(), 3363910501162274999);
}

#[test]
fn decoder_tables_score() {
    let s = evaluate_table(&baseline_tables(), &CURRENT_HASH, &valid_lut(), &required_delta_lut());
    assert_eq!(score_tuple(s), (0, 0, 0, 4, 9, 828, 6));
}

#[test]
fn decoder_tables_derive_the_offset_table() {
    let lut = valid_lut();
    let req = required_delta_lut();
    let delta = derive_delta_values(&baseline_tables(), &CURRENT_HASH, &lut, &req);
    assert_eq!(delta, Some([0, 0, 0, 19, 4, -65, -65, -71, -71, 0, 16, 0, -65, 0, -71, 0]));
    // The offsets are those of the decoders (as signed bytes).
    let current: [u8; 16] = [0x00, 0x00, 0x00, 0x13, 0x04, 0xbf, 0xbf, 0xb9, 0xb9, 0x00, 0x10, 0xc3, 0xbf, 0xbf, 0xb9, 0xb9];
    let d = delta.unwrap();
    for h in 0..16 {
        if d[h] != 0 {
            assert_eq!(d[h] as u8, current[h]);
        }
    }
    assert_eq!(derive_check_values(&baseline_tables(), &CURRENT_HASH, &lut), None);
    assert_eq!(derive_poison_delta_values_80(&baseline_tables(), &CURRENT_HASH, &lut, &req), None);
}

#[test]
fn example_table_derives_check_values() {
    let lut = valid_lut();
    let req = required_delta_lut();
    let spec = HashSpec { shift: 4, mix: MixOp::Add, index_mode: IndexMode::Maskless, family: HashFamily::OneLut };
    let tables = HashTables { primary: EXAMPLE_TABLE, perturb: [0; 16], hi: [0; 16], pos: [0; 64] };
    let s = evaluate_table(&tables, &spec, &lut, &req);
    assert_eq!(score_tuple(s), (3, 1562, 3125, 0, 6, 1459, 4));
    assert_eq!(derive_delta_values(&tables, &spec, &lut, &req), None);
    assert_eq!(
        derive_check_values(&tables, &spec, &lut),
        Some([-97, -76, -128, -108, -128, -128, -128, -128, -128, -128, -128, -128, -128, -43, -65, -75])
    );
    assert_eq!(derive_poison_delta_values_80(&tables, &spec, &lut, &req), None);
}

#[test]
fn local_search_keeps_the_decoder_tables_when_nothing_beats_them() {
    let c = local_search(CURRENT_HASH, 2, 30, &valid_lut(), &required_delta_lut());
    assert_eq!(c.tables.primary, baseline_tables().primary);
    assert_eq!(score_tuple(c.score), (0, 0, 0, 4, 9, 828, 6));
}

#[test]
fn local_search_mutates_the_high_nibble_table() {
    let spec = HashSpec { shift: 4, mix: MixOp::Xor, index_mode: IndexMode::Maskless, family: HashFamily::LoHiAdd };
    let c = local_search(spec, 2, 20, &valid_lut(), &required_delta_lut());
    let mut hi = [0u8; 16];
    hi[2] = 34;
    assert_eq!(c.tables.hi, hi);
    assert_eq!(c.tables.primary, baseline_tables().primary);
    assert_eq!(score_tuple(c.score), (1, 1536, 3072, 4, 9, 1329, 4));
}

#[test]
fn local_search_with_random_restarts() {
    let spec = HashSpec { shift: 1, mix: MixOp::Add, index_mode: IndexMode::Maskless, family: HashFamily::TwoLutXor };
    let c = local_search(spec, 3, 25, &valid_lut(), &required_delta_lut());
    assert_eq!(c.tables.primary, [38, 17, 150, 232, 118, 140, 97, 161, 45, 183, 178, 177, 38, 6, 184, 13]);
    assert_eq!(c.tables.perturb, [91, 105, 175, 27, 175, 174, 165, 182, 123, 227, 54, 246, 105, 125, 223, 100]);
    assert_eq!(score_tuple(c.score), (9, 197, 400, 3, 9, 125, 9));
    // The score is that of the returned tables.
    let again = evaluate_table(&c.tables, &spec, &valid_lut(), &required_delta_lut());
    assert_eq!(score_tuple(again), score_tuple(c.score));
}

#[test]
fn local_search_predicate_select_family() {
    let spec = HashSpec { shift: 2, mix: MixOp::Sub, index_mode: IndexMode::Masked0f, family: HashFamily::PredSelBit6 };
    let c = local_search(spec, 2, 25, &valid_lut(), &required_delta_lut());
    assert_eq!(c.tables.primary, [1, 1, 1, 1, 1, 1, 1, 1, 7, 0, 0, 203, 0, 77, 0, 15]);
    assert_eq!(c.tables.perturb, [0, 0, 0, 0, 0, 0, 0, 0, 0, 0, 0, 0, 0, 0, 66, 64]);
    assert_eq!(score_tuple(c.score), (3, 443, 870, 6, 16, 447, 9));
}

#[test]
fn required_offsets() {
    let req = required_delta_lut();
    assert_eq!(req[b'A' as usize], -65);
    assert_eq!(req[b'a' as usize], -71);
    assert_eq!(req[b'0' as usize], 4);
    assert_eq!(req[b'+' as usize], 19);
    assert_eq!(req[b'/' as usize], 16);
    assert_eq!(req[b'=' as usize], 0);
}

#[test]
fn candidate_hash_list() {
    let specs = candidate_specs();
    assert_eq!(specs.len(), 480);
    assert_eq!(specs[0], HashSpec { shift: 1, mix: MixOp::Avg, index_mode: IndexMode::Maskless, family: HashFamily::OneLut });
    assert_eq!(specs[5], HashSpec { shift: 2, mix: MixOp::Add, index_mode: IndexMode::Maskless, family: HashFamily::OneLut });
    assert_eq!(specs[24].index_mode, IndexMode::Masked0f);
    assert_eq!(specs[48].family, HashFamily::TwoLutAdd);
    assert_eq!(
        specs[479],
        HashSpec { shift: 4, mix: MixOp::Sub, index_mode: IndexMode::Masked0f, family: HashFamily::DualIndexBit6 }
    );
}

#[test]
fn ranking_orders_by_score_then_poison() {
    let lut = valid_lut();
    let req = required_delta_lut();
    let mk = |spec: HashSpec| {
        let t = baseline_tables();
        let s = evaluate_table(&t, &spec, &lut, &req);
        oxid64::synth::hash_resynth::Candidate { spec, tables: t, score: s }
    };
    let a = mk(HashSpec { shift: 4, mix: MixOp::Xor, index_mode: IndexMode::Maskless, family: HashFamily::LoHiAdd });
    let b = mk(CURRENT_HASH);
    let c = mk(HashSpec { shift: 2, mix: MixOp::Add, index_mode: IndexMode::Masked0f, family: HashFamily::PosAware });
    let ranked = rank_candidates(vec![a, b, c], false);
    let shifts: Vec<u8> = ranked.iter().map(|x| x.spec.shift).collect();
    assert_eq!(shifts, vec![3, 4, 2]);
    let by_poison = rank_candidates(vec![c, a, b], true);
    let shifts: Vec<u8> = by_poison.iter().map(|x| x.spec.shift).collect();
    assert_eq!(shifts, vec![3, 4, 2]);
}

#[test]
fn ranking_keeps_tied_candidates_in_input_order() {
    let lut = valid_lut();
    let req = required_delta_lut();
    let t = baseline_tables();
    let s = evaluate_table(&t, &CURRENT_HASH, &lut, &req);
    let mk = |shift: u8| oxid64::synth::hash_resynth::Candidate {
        spec: HashSpec { shift, ..CURRENT_HASH },
        tables: t,
        score: s,
    };
    let mut worse = s;
    worse.map_conflict_buckets += 1;
    let w = oxid64::synth::hash_resynth::Candidate { spec: CURRENT_HASH, tables: t, score: worse };
    for poison in [false, true] {
        let ranked = rank_candidates(vec![w, mk(4), mk(1), mk(2)], poison);
        let shifts: Vec<u8> = ranked.iter().map(|x| x.spec.shift).collect();
        assert_eq!(shifts, vec![4, 1, 2, CURRENT_HASH.shift]);
    }
}

// ---------------------------------------------------------------------------
// Single-lookup check tables
// ---------------------------------------------------------------------------

#[test]
fn parse_mix_names() {
    assert_eq!(MixOp::parse("avg"), Some(MixOp::Avg));
    assert_eq!(MixOp::parse("avg_epu8"), Some(MixOp::Avg));
    assert_eq!(MixOp::parse("add_epi8"), Some(MixOp::Add));
    assert_eq!(MixOp::parse("xor_si128"), Some(MixOp::Xor));
    assert_eq!(MixOp::parse("sub"), None);
    assert_eq!(MixOp::parse("AVG"), None);
}

#[test]
fn parse_table_accepts_hex_with_separators() {
    let t = parse_table("4a 7a 6a 8a 3a 7a 9a 4a 7a 2a f9 5b cd ad 1d bb");
    assert!(matches!(t, Ok(v) if v == EXAMPLE_TABLE));
    let t = parse_table("0x4a,0X7a, 6A\t8a,,3a 7a 9a 4a 7a 2a F9 5b cd ad 1d +bb");
    assert!(matches!(t, Ok(v) if v == EXAMPLE_TABLE));
    let t = parse_table("0x0x1 2 3 4 5 6 7 8 9 a b c d e f 0");
    assert!(matches!(t, Ok(v) if v[0] == 1 && v[15] == 0));
}

#[test]
fn parse_table_reports_count_and_bad_bytes() {
    assert!(matches!(parse_table("1 2 3"), Err(TableError::Count(3))));
    assert!(matches!(parse_table(""), Err(TableError::Count(0))));
    match parse_table("0 1 2 3 4 5 6 7 8 9 a b c d 0xzz f") {
        Err(TableError::BadHex { index, token }) => {
            assert_eq!(index, 14);
            assert_eq!(token, "zz");
        },
        _ => panic!("expected a bad byte"),
    }
    match parse_table("100 1 2 3 4 5 6 7 8 9 a b c d e f") {
        Err(TableError::BadHex { index, token }) => {
            assert_eq!(index, 0);
            assert_eq!(token, "100");
        },
        _ => panic!("expected a byte out of range"),
    }
    assert!(matches!(parse_table("+ 1 2 3 4 5 6 7 8 9 a b c d e f"), Err(TableError::BadHex { index: 0, .. })));
}

#[test]
fn check_value_synthesis_for_the_example_table() {
    let spec = CheckHashSpec { shift: 4, mix: MixOp::Add };
    let bk = build_buckets(&EXAMPLE_TABLE, spec);
    let r = synthesize_check_values(&bk);
    assert_eq!(r.check_values, [-97, 20, -128, -11, -127, -37, -45, -53, -61, -69, -77, -85, -93, -29, -65, -61]);
    assert!(r.impossible.is_empty());
    assert!(matches!(
        r.buckets[1],
        CheckBucket::Feasible { valid: 15, invalid: 1, lo: -76, hi: 117, chosen: 20, violations: 0 }
    ));
    assert!(matches!(
        r.buckets[3],
        CheckBucket::Feasible { valid: 3, invalid: 13, lo: -108, hi: 85, chosen: -11, violations: 0 }
    ));
    assert!(matches!(check_bucket(&bk, 0), CheckBucket::Feasible { valid: 10, invalid: 6, chosen: -97, .. }));
    assert_eq!(hash_nibble(b'A', 0, 3, &EXAMPLE_TABLE, spec), ((0x7a + (b'A' >> 4)) & 0x0f));
}

#[test]
fn check_value_synthesis_reports_infeasible_buckets() {
    let spec = CheckHashSpec { shift: 3, mix: MixOp::Avg };
    let table: [u8; 16] = [1, 1, 1, 1, 1, 1, 1, 1, 0, 0, 0, 0, 0, 0x0f, 0, 0x0f];
    let bk = build_buckets(&table, spec);
    let r = synthesize_check_values(&bk);
    assert_eq!(r.impossible, vec![3, 4, 6, 8]);
    assert!(matches!(r.buckets[3], CheckBucket::Infeasible { valid: 1, invalid: 15 }));
    assert_eq!(r.check_values[3], 0);
}

// ---------------------------------------------------------------------------
// Split predicates
// ---------------------------------------------------------------------------

#[test]
fn predicate_bits() {
    let preds = standard_predicates();
    assert_eq!(preds.len(), 9);
    assert_eq!(pred_bit(0x80, preds[0]), 1);
    assert_eq!(pred_bit(0x7f, preds[0]), 0);
    assert_eq!(pred_bit(0x60, PredSpec { name: "x", kind: PredKind::Xor(0x40, 0x20) }), 0);
    assert_eq!(pred_bit(0x40, PredSpec { name: "x", kind: PredKind::Xor(0x40, 0x20) }), 1);
    assert_eq!(pred_bit(0x20, PredSpec { name: "o", kind: PredKind::Or(0x40, 0x20) }), 1);
    assert_eq!(pred_bit(0x20, PredSpec { name: "a", kind: PredKind::And(0x40, 0x20) }), 0);
}

#[test]
fn single_predicate_splits() {
    let preds = standard_predicates();
    let r = evaluate_pred(preds[0]);
    assert_eq!(r.mixed, vec![6, 8, 10, 12, 14, 16, 20]);
    assert_eq!(r.impossible, vec![6, 8, 12, 16]);
    assert!(r.example.is_none());
    let r = evaluate_pred(preds[4]);
    assert_eq!(r.mixed, vec![7, 9, 10, 11, 13, 14, 15, 17, 21, 25, 29]);
    assert_eq!(r.impossible, vec![7, 9, 13, 17]);
    let bk = buckets_for_pred(preds[1]);
    assert_eq!(option1_mixed_buckets(&bk), vec![6, 8, 11, 13, 15, 17, 20, 29]);
    assert_eq!(option2_impossible_buckets(&bk), vec![6, 8, 13, 17]);
    assert_eq!(first_minimum(&[7, 8, 7, 11]), Some(0));
    assert_eq!(first_minimum(&[9, 8, 7, 7]), Some(2));
    assert_eq!(first_minimum(&[]), None);
}

#[test]
fn predicate_pairs_rank() {
    let preds = standard_predicates();
    let all = evaluate_all_pairs(&preds);
    assert_eq!(all.len(), 36);
    assert_eq!(feasible_counts(&all), (0, 0));
    let ranked = sort_candidates(all);
    let names: Vec<(&str, &str)> = ranked.iter().take(3).map(|c| (c.first.name, c.second.name)).collect();
    assert_eq!(names, vec![("bit4", "bit3"), ("bit4", "bit5_xor_bit4"), ("bit4", "bit6_and_bit5")]);
    assert_eq!(ranked[0].mixed_idxs, vec![14, 19, 20, 27, 28, 35, 42]);
    assert_eq!(ranked[0].impossible_idxs, vec![14, 19, 27, 35]);
    assert_eq!(ranked[0].mixed_count, 7);
    let one = evaluate_pair(preds[3], preds[4]);
    let other = evaluate_pair(preds[3], preds[8]);
    assert!(candidate_precedes(&one, &other));
    assert!(!candidate_precedes(&other, &one));
    assert_eq!(buckets_for_pair(preds[3], preds[4]).member.len(), 256 * 64);
}

// ---------------------------------------------------------------------------
// Ambiguity rate
// ---------------------------------------------------------------------------

fn stats_tuple(s: Stats) -> [usize; 8] {
    [s.encoded_len, s.safe_len, s.vec_len, s.amb_bytes, s.blocks16_total, s.blocks16_amb, s.blocks64_total, s.blocks64_amb]
}

#[test]
fn bench_like_text() {
    assert_eq!(bench_like_encoded(3), b"AAEC".to_vec());
    assert_eq!(bench_like_encoded(5), b"AAECAwQ=".to_vec());
    assert_eq!(bench_like_encoded(0), Vec::<u8>::new());
}

#[test]
fn ambiguity_counts() {
    assert_eq!(stats_tuple(analyze_encoded(&bench_like_encoded(1024))), [1368, 1364, 1360, 701, 85, 85, 21, 21]);
    assert_eq!(stats_tuple(analyze_encoded(&bench_like_encoded(48))), [64, 60, 48, 14, 3, 3, 0, 0]);
    assert_eq!(stats_tuple(analyze_encoded(&[b'A'; 100])), [100, 96, 96, 0, 6, 0, 1, 0]);
    let mixed = b"0123456789abcdefghijklmnopqrstuvwxyzABCDEFGHIJKLMNOPQRSTUVWXYZ+/0123456789abcdef";
    assert_eq!(stats_tuple(analyze_encoded(mixed)), [80, 76, 64, 33, 4, 4, 1, 1]);
    assert_eq!(stats_tuple(analyze_encoded(b"abc")), [3, 0, 0, 0, 0, 0, 0, 0]);
    assert!(!is_ambiguous_byte(b"AAAA", 0));
}

#[test]
fn size_lists() {
    assert!(matches!(parse_sizes("1024,1048576"), Ok(v) if v == vec![1024, 1048576]));
    assert!(matches!(parse_sizes(" 12 , ,\t7 "), Ok(v) if v == vec![12, 7]));
    assert!(matches!(parse_sizes("+5"), Ok(v) if v == vec![5]));
    assert!(matches!(parse_sizes(",,"), Err(SizesError::Empty)));
    assert!(matches!(parse_sizes(""), Err(SizesError::Empty)));
    match parse_sizes("12, abc ,x") {
        Err(SizesError::Invalid { token }) => assert_eq!(token, "abc"),
        _ => panic!("expected an invalid size"),
    }
    match parse_sizes("99999999999999999999999") {
        Err(SizesError::Invalid { token }) => assert_eq!(token, "99999999999999999999999"),
        _ => panic!("expected an overflowing size"),
    }
}
