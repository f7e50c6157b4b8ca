use mock_merger::dna::reverse_complement;
use mock_merger::merge::merge_reads;
use mock_merger::pipeline::{mock_merge_records, process_chunk, ChunkStep};
use mock_merger::reader::ChunkReader;
use mock_merger::record::FastqRead;

fn read(h: &str, s: &str, q: &str) -> FastqRead {
    FastqRead::new(h.to_string(), s.to_string(), q.to_string())
}

fn numbered(prefix: &str, n: usize) -> Vec<FastqRead> {
    (0..n)
        .map(|i| read(&format!("@{}{}", prefix, i), "ACGT", "IIII"))
        .collect()
}

fn text(v: &[u8]) -> String {
    String::from_utf8(v.to_vec()).unwrap()
}

#[test]
fn revcomp_of_bases() {
    assert_eq!(reverse_complement("ATGC"), "GCAT");
    assert_eq!(reverse_complement("AACG"), "CGTT");
    assert_eq!(reverse_complement(""), "");
}

#[test]
fn revcomp_twice_gives_back_the_bases() {
    for s in ["A", "GATTACA", "CCGGTTAA", "TGCATGCA"] {
        assert_eq!(reverse_complement(&reverse_complement(s)), s);
    }
}

#[test]
fn revcomp_unknown_symbols_become_a() {
    assert_eq!(reverse_complement("ANX"), "AAT");
    assert_eq!(reverse_complement("nnG"), "CAA");
    assert_eq!(reverse_complement("-"), "A");
}

#[test]
fn merge_reads_exact_record() {
    let a = read("@r1", "ACG", "III");
    let b = read("@r2", "TTA", "JJJ");
    let out = merge_reads(&a, &b, 2);
    assert_eq!(text(&out), "@r1 mock_merged_3_3\nACGNNTAA\n+\nIII##JJJ\n");
}

#[test]
fn merge_reads_zero_spacer_and_empty_reads() {
    let a = read("@x", "", "");
    let b = read("@y", "", "");
    assert_eq!(text(&merge_reads(&a, &b, 0)), "@x mock_merged_0_0\n\n+\n\n");
}

#[test]
fn merge_reads_multi_digit_lengths() {
    let a = read("@long", "ACGTACGTACGT", "IIIIIIIIIIII");
    let b = read("@short", "G", "J");
    assert_eq!(
        text(&merge_reads(&a, &b, 1)),
        "@long mock_merged_12_1\nACGTACGTACGTNC\n+\nIIIIIIIIIIII#J\n"
    );
}

#[test]
fn merged_lengths_add_up() {
    let a = read("@a", "ACGTA", "IIIII");
    let b = read("@b", "GGC", "JJJ");
    let out = text(&merge_reads(&a, &b, 4));
    let lines: Vec<&str> = out.split('\n').collect();
    assert_eq!(lines[1].len(), 5 + 4 + 3);
    assert_eq!(lines[3].len(), 5 + 4 + 3);
    assert_eq!(lines[2], "+");
}

#[test]
fn process_chunk_drains_on_empty_side() {
    let a = numbered("a", 3);
    let none: Vec<FastqRead> = Vec::new();
    assert!(matches!(process_chunk(&a, &none, 1), ChunkStep::Drained));
    assert!(matches!(process_chunk(&none, &a, 1), ChunkStep::Drained));
    assert!(matches!(process_chunk(&none, &none, 1), ChunkStep::Drained));
}

#[test]
fn process_chunk_pairs_up_to_shorter_side() {
    let a = numbered("a", 5);
    let b = numbered("b", 2);
    match process_chunk(&a, &b, 0) {
        ChunkStep::Merged { records, mismatched } => {
            assert!(mismatched);
            assert_eq!(records.len(), 2);
            assert!(text(&records[1]).starts_with("@a1 mock_merged_4_4\n"));
        }
        ChunkStep::Drained => panic!("expected merged records"),
    }
    match process_chunk(&a, &a, 0) {
        ChunkStep::Merged { records, mismatched } => {
            assert!(!mismatched);
            assert_eq!(records.len(), 5);
        }
        ChunkStep::Drained => panic!("expected merged records"),
    }
}

#[test]
fn ten_against_seven_in_chunks_of_five() {
    let a = numbered("a", 10);
    let b = numbered("b", 7);
    let out = mock_merge_records(&a, &b, 1, 5);
    assert_eq!(out.len(), 7);
    for (i, r) in out.iter().enumerate() {
        assert!(text(r).starts_with(&format!("@a{} mock_merged_4_4\n", i)));
    }
}

#[test]
fn equal_streams_give_every_record() {
    for (k, c) in [(3usize, 5usize), (5, 5), (7, 3), (9, 3), (1, 1), (0, 4)] {
        let a = numbered("a", k);
        let b = numbered("b", k);
        assert_eq!(mock_merge_records(&a, &b, 2, c).len(), k);
    }
}

#[test]
fn output_order_follows_input_order() {
    let a = numbered("a", 200);
    let b = numbered("b", 200);
    let out = mock_merge_records(&a, &b, 0, 64);
    assert_eq!(out.len(), 200);
    for (i, r) in out.iter().enumerate() {
        assert_eq!(text(r), text(&merge_reads(&a[i], &b[i], 0)));
    }
}

#[test]
fn empty_stream_gives_nothing() {
    let a = numbered("a", 4);
    let none: Vec<FastqRead> = Vec::new();
    assert!(mock_merge_records(&a, &none, 3, 2).is_empty());
    assert!(mock_merge_records(&none, &a, 3, 2).is_empty());
    assert!(mock_merge_records(&none, &none, 3, 2).is_empty());
}

fn feed(lines: &[&str], count: usize) -> (Vec<FastqRead>, usize) {
    let mut r = ChunkReader::new(count);
    let mut used = 0;
    while r.wants_line() {
        if used < lines.len() {
            r.push_line(lines[used]);
            used += 1;
        } else {
            r.end_of_input();
        }
    }
    (r.into_records(), used)
}

#[test]
fn chunk_reader_assembles_and_trims() {
    let lines = ["@r1\n", "ACGT  \r\n", "+\n", "IIII\n", "@r2\n", "GG\n", "+r2\n", "JJ"];
    let (recs, used) = feed(&lines, 5);
    assert_eq!(used, 8);
    assert_eq!(recs.len(), 2);
    assert_eq!(recs[0].header, "@r1");
    assert_eq!(recs[0].sequence, "ACGT");
    assert_eq!(recs[0].quality, "IIII");
    assert_eq!(recs[1].header, "@r2");
    assert_eq!(recs[1].sequence, "GG");
    assert_eq!(recs[1].quality, "JJ");
}

#[test]
fn chunk_reader_stops_at_count() {
    let lines = ["@r1\n", "A\n", "+\n", "I\n", "@r2\n", "C\n", "+\n", "J\n"];
    let (recs, used) = feed(&lines, 1);
    assert_eq!(recs.len(), 1);
    assert_eq!(used, 4);
    let (none, used0) = feed(&lines, 0);
    assert!(none.is_empty());
    assert_eq!(used0, 0);
}

#[test]
fn chunk_reader_drops_truncated_record() {
    let lines = ["@r1\n", "A\n", "+\n", "I\n", "@r2\n", "C\n"];
    let (recs, used) = feed(&lines, 3);
    assert_eq!(used, 6);
    assert_eq!(recs.len(), 1);
    assert_eq!(recs[0].sequence, "A");
    let (empty, _) = feed(&[], 3);
    assert!(empty.is_empty());
}
