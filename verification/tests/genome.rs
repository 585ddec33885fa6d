use sql_lineage::genome::{ChromSizes, GenomeBaseIndex, GenomicRange, TranscriptParserOptions};

fn sizes() -> Vec<(String, u64)> {
    vec![("1".to_owned(), 13), ("2".to_owned(), 71), ("3".to_owned(), 100)]
}

/// Reads a stretch written as `chrom:start-end`.
fn locus(txt: &str) -> GenomicRange {
    let (chrom, span) = txt.split_once(':').unwrap();
    let (start, end) = span.split_once('-').unwrap();
    GenomicRange { chrom: chrom.to_owned(), start: start.parse().unwrap(), end: end.parse().unwrap() }
}

#[test]
fn test_index1() {
    let chrom_sizes = ChromSizes::from_pairs(sizes());
    let mut index = GenomeBaseIndex::new(&chrom_sizes).unwrap();

    assert_eq!(index.get_range("1").unwrap(), 0..13);
    assert_eq!(index.get_range("2").unwrap(), 13..84);
    assert_eq!(index.get_range("3").unwrap(), 84..184);

    assert_eq!(chrom_sizes.entries(), index.chrom_sizes());

    for (i, txt) in [(0, "1:0-1"), (12, "1:12-13"), (13, "2:0-1"), (100, "3:16-17")] {
        let locus = locus(txt);
        assert_eq!(index.get_region(i), locus);
        assert_eq!(index.get_position_rev(&locus.chrom, locus.start), i);
    }

    index = index.with_step(2);
    for (i, txt) in [(0, "1:0-2"), (6, "1:12-13"), (7, "2:0-2"), (11, "2:8-10")] {
        let locus = locus(txt);
        assert_eq!(index.get_region(i), locus);
        assert_eq!(index.get_position_rev(&locus.chrom, locus.start), i);
    }

    index = index.with_step(3);
    for (i, txt) in [
        (0, "1:0-3"),
        (2, "1:6-9"),
        (4, "1:12-13"),
        (5, "2:0-3"),
        (29, "3:0-3"),
        (62, "3:99-100"),
    ] {
        let locus = locus(txt);
        assert_eq!(index.get_region(i), locus);
        assert_eq!(index.get_position_rev(&locus.chrom, locus.start), i);
    }
}

#[test]
fn test_index2() {
    let chrom_sizes = ChromSizes::from_pairs(sizes());

    let index = GenomeBaseIndex::new(&chrom_sizes).unwrap();
    for (i, i_) in [(0, 0), (12, 12), (13, 13), (100, 100)] {
        assert_eq!(index.get_coarsed_position(i), i_);
    }

    let index2 = index.with_step(2);
    for (i1, i2) in [
        (0, 0),
        (1, 0),
        (2, 1),
        (3, 1),
        (4, 2),
        (5, 2),
        (6, 3),
        (7, 3),
        (8, 4),
        (9, 4),
        (10, 5),
        (11, 5),
        (12, 6),
        (13, 7),
        (14, 7),
        (15, 8),
    ] {
        assert_eq!(index2.get_coarsed_position(i1), i2);
        let locus = index.get_region(i1);
        assert_eq!(index2.get_position_rev(&locus.chrom, locus.start), i2);
    }
}

#[test]
fn index_knows_its_chromosomes() {
    let index = GenomeBaseIndex::new(&ChromSizes::from_pairs(sizes())).unwrap();
    assert_eq!(index.len(), 184);
    assert!(index.contain_chrom("2"));
    assert!(!index.contain_chrom("X"));
    assert_eq!(index.get_range("X"), None);
    assert_eq!(index.get_chrom(0), "1");
    assert_eq!(index.get_chrom(13), "2");
    assert_eq!(index.get_chrom(183), "3");
    assert_eq!(index.get_position(100), (&"3".to_owned(), 16));
    assert_eq!(index.position_rev("1", 13), None);
    assert_eq!(index.position_rev("X", 0), None);
    assert_eq!(index.position_rev("2", 70), Some(83));
    assert_eq!(index.with_step(10).len(), 2 + 8 + 10);
}

#[test]
fn positions_go_there_and_back() {
    let base = GenomeBaseIndex::new(&ChromSizes::from_pairs(sizes())).unwrap();
    for step in [1usize, 2, 3, 7, 200] {
        let index = base.with_step(step);
        for pos in 0..index.len() {
            let (chrom, start) = index.get_position(pos);
            assert_eq!(index.get_position_rev(chrom, start), pos);
        }
    }
}

#[test]
fn chrom_sizes_keep_the_first_place_and_the_last_size() {
    let sizes = ChromSizes::from_pairs(vec![
        ("a".to_owned(), 1),
        ("b".to_owned(), 2),
        ("a".to_owned(), 5),
    ]);
    assert_eq!(sizes.entries(), vec![("a".to_owned(), 5), ("b".to_owned(), 2)]);
    assert_eq!(sizes.get("a"), Some(5));
    assert_eq!(sizes.get("c"), None);
    assert_eq!(sizes.total_size(), 7);
    assert_eq!(sizes.checked_total_size(), Some(7));
    let huge = ChromSizes::from_pairs(vec![("a".to_owned(), u64::MAX), ("b".to_owned(), 1)]);
    assert_eq!(huge.checked_total_size(), None);
    assert!(GenomeBaseIndex::new(&huge).is_none());
}

#[test]
fn parser_options_default_to_the_usual_keys() {
    let options = TranscriptParserOptions::default();
    assert_eq!(options.transcript_name_key, "transcript_name");
    assert_eq!(options.transcript_id_key, "transcript_id");
    assert_eq!(options.gene_name_key, "gene_name");
    assert_eq!(options.gene_id_key, "gene_id");
}
