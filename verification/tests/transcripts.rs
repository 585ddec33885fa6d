use noodles::gff::feature::record::Strand as StrandRead;
use noodles::gff::feature::RecordBuf;
use noodles::{gff, gtf};
use sql_lineage::atom::{Atom, FunctionAttribute};
use sql_lineage::error::{PyErrString, StringError, StringifiedError};
use sql_lineage::genome::{
    attribute, gene_counts, gene_index, transcript_from_record, GenomicRange, Promoters,
    RecordError, Strand, Transcript, TranscriptParserOptions,
};
use sql_lineage::state::State;

fn transcript(gene: &str, left: usize, right: usize, strand: Strand) -> Transcript {
    Transcript {
        transcript_name: Some(format!("{gene}-201")),
        transcript_id: format!("T{left}"),
        gene_name: gene.to_string(),
        gene_id: format!("G{gene}"),
        is_coding: Some(false),
        chrom: "chr1".to_string(),
        left,
        right,
        strand,
    }
}

#[test]
fn transcription_starts_at_the_near_end() {
    assert_eq!(transcript("a", 11869, 14409, Strand::Forward).get_tss(), Some(11868));
    assert_eq!(transcript("a", 11869, 14409, Strand::Reverse).get_tss(), Some(14408));
    assert_eq!(transcript("a", 11869, 14409, Strand::Unstranded).get_tss(), None);
    assert_eq!(transcript("a", 11869, 14409, Strand::Unknown).get_tss(), None);
}

#[test]
fn promoters_reach_up_and_down_the_strand() {
    let transcripts = vec![
        transcript("a", 101, 201, Strand::Forward),
        transcript("b", 101, 201, Strand::Reverse),
        transcript("c", 5, 9, Strand::Forward),
    ];
    let p = Promoters::new(transcripts, 10, 20, false);
    let range = |start: u64, end: u64| GenomicRange { chrom: "chr1".to_string(), start, end };
    assert_eq!(p.regions, vec![range(90, 120), range(180, 210), range(0, 24)]);
    assert_eq!(p.gene_names(), vec!["a".to_string(), "b".to_string(), "c".to_string()]);
    let transcripts = vec![
        transcript("a", 101, 201, Strand::Forward),
        transcript("b", 101, 201, Strand::Reverse),
    ];
    let p = Promoters::new(transcripts, 10, 20, true);
    assert_eq!(p.regions, vec![range(90, 220), range(80, 210)]);
}

#[test]
fn genes_take_the_greatest_count_of_their_transcripts() {
    let names: Vec<String> = ["g1", "g2", "g1", "g3", "g2"].iter().map(|s| s.to_string()).collect();
    let (genes, gene_of) = gene_index(&names);
    assert_eq!(genes, vec!["g1".to_string(), "g2".to_string(), "g3".to_string()]);
    assert_eq!(gene_of, vec![0, 1, 0, 2, 1]);
    let counts = vec![(4usize, 7u32), (0, 3), (2, 5), (1, 2)];
    assert_eq!(gene_counts(&counts, &gene_of, genes.len()), vec![(0, 5), (1, 7)]);
    assert_eq!(gene_counts(&vec![], &gene_of, genes.len()), vec![]);
}

#[test]
fn errors_as_text() {
    let e = StringifiedError::from_string("it broke".to_string());
    assert_eq!(e.message(), "it broke");
    assert!(e.source().is_none());
    let e = StringifiedError::with_source("it broke".to_string(), "the disk is full".to_string());
    assert_eq!(e.source().unwrap().0, "the disk is full");
    let p = PyErrString {
        kind: "ValueError".to_string(),
        message: "bad value".to_string(),
        traceback: Some(StringError("line 1".to_string())),
    };
    assert_eq!(p.to_text(), "ValueError: bad value");
}

#[test]
fn symbols_are_numbered_once() {
    let mut state = State::new();
    let x = state.get_symbol("x");
    let y = state.get_symbol("y");
    assert_eq!(x.id, 0);
    assert_eq!(y.id, 1);
    assert_eq!(state.get_symbol("x"), x);
    assert!(!x.is_symmetric() && !x.is_antisymmetric() && !x.is_cyclesymmetric());
    let f = state
        .get_symbol_with_attributes("f", &[FunctionAttribute::Symmetric, FunctionAttribute::Linear])
        .unwrap();
    assert_eq!(f.id, 2);
    assert!(f.is_symmetric() && f.linear && !f.is_cyclesymmetric());
    assert_eq!(
        state.get_symbol_with_attributes("f", &[FunctionAttribute::Linear, FunctionAttribute::Symmetric]),
        Ok(f)
    );
    assert_eq!(
        state.get_symbol_with_attributes("f", &[FunctionAttribute::Symmetric]),
        Err("Function redefined with new attributes: f".to_string())
    );
    assert_eq!(state.get_symbol("f"), f);
}

#[test]
fn symmetric_functions_sort_their_arguments() {
    let mut state = State::new();
    let _ = state.get_symbol_with_attributes("s", &[FunctionAttribute::Symmetric]).unwrap();
    let _ = state.get_symbol_with_attributes("c", &[FunctionAttribute::Cyclesymmetric]).unwrap();
    let a = Atom::parse("s(x, y, z)", &mut state).unwrap();
    let b = Atom::parse("s(z, x, y)", &mut state).unwrap();
    assert_eq!(a, b);
    let a = Atom::parse("c(x, y, z)", &mut state).unwrap();
    let b = Atom::parse("c(y, z, x)", &mut state).unwrap();
    let other = Atom::parse("c(y, x, z)", &mut state).unwrap();
    assert_eq!(a, b);
    assert_ne!(a, other);
    let a = Atom::parse("f(x, y)", &mut state).unwrap();
    let b = Atom::parse("f(y, x)", &mut state).unwrap();
    assert_ne!(a, b);
    assert_eq!(Atom::parse("x^1", &mut state).unwrap(), Atom::parse("x", &mut state).unwrap());
    assert_eq!(Atom::parse("2*3*x", &mut state).unwrap(), Atom::parse("x*6", &mut state).unwrap());
    assert_eq!(Atom::parse("0*x", &mut state).unwrap(), Atom::new_num(0));
}

fn pairs(v: &[(&str, &str)]) -> Vec<(String, String)> {
    v.iter().map(|(k, v)| (k.to_string(), v.to_string())).collect()
}

#[test]
fn transcript_from_a_record() {
    let attributes = pairs(&[
        ("gene_id", "ENSG00000223972.5"),
        ("transcript_id", "ENST00000456328.2"),
        ("gene_type", "transcribed_unprocessed_pseudogene"),
        ("gene_name", "DDX11L1"),
        ("transcript_type", "processed_transcript"),
        ("transcript_name", "DDX11L1-202"),
        ("level", "2"),
    ]);
    let options = TranscriptParserOptions::default();
    let t = transcript_from_record(
        "transcript",
        "chr1",
        11869,
        14409,
        Strand::Forward,
        &attributes,
        &options,
    )
    .unwrap();
    assert_eq!(t.transcript_name, Some("DDX11L1-202".to_string()));
    assert_eq!(t.transcript_id, "ENST00000456328.2");
    assert_eq!(t.gene_name, "DDX11L1");
    assert_eq!(t.gene_id, "ENSG00000223972.5");
    assert_eq!(t.is_coding, Some(false));
    assert_eq!(t.chrom, "chr1");
    assert_eq!((t.left, t.right), (11869, 14409));
    assert_eq!(t.strand, Strand::Forward);
    assert_eq!(t.get_tss(), Some(11868));
}

#[test]
fn records_that_give_no_transcript() {
    let options = TranscriptParserOptions::default();
    let full = pairs(&[("gene_id", "g"), ("transcript_id", "t"), ("gene_name", "n")]);
    let gene = transcript_from_record("gene", "chr1", 1, 2, Strand::Forward, &full, &options);
    assert_eq!(gene.unwrap_err(), RecordError::NotATranscript);
    let exon = transcript_from_record("exon", "chr1", 1, 2, Strand::Forward, &full, &options);
    assert_eq!(exon.unwrap_err(), RecordError::NotATranscript);
    for missing in ["transcript_id", "gene_name", "gene_id"] {
        let some: Vec<(String, String)> =
            full.iter().filter(|(k, _)| k != missing).cloned().collect();
        let r = transcript_from_record("transcript", "chr1", 1, 2, Strand::Reverse, &some, &options);
        assert_eq!(r.unwrap_err(), RecordError::MissingAttribute(missing.to_string()));
    }
    let t = transcript_from_record("transcript", "chr1", 1, 2, Strand::Reverse, &full, &options)
        .unwrap();
    assert_eq!(t.transcript_name, None);
    assert_eq!(t.is_coding, None);
    let coding = pairs(&[
        ("gene_id", "g"),
        ("transcript_id", "t"),
        ("gene_name", "n"),
        ("transcript_type", "lncRNA"),
        ("transcript_type", "protein_coding"),
    ]);
    let t = transcript_from_record("transcript", "chr1", 1, 2, Strand::Reverse, &coding, &options)
        .unwrap();
    assert_eq!(t.is_coding, Some(true));
    assert_eq!(attribute(&coding, &"transcript_type".to_string()), Some("protein_coding".to_string()));
    assert_eq!(attribute(&coding, &"level".to_string()), None);
}

fn strand_of(read: StrandRead) -> Strand {
    match read {
        StrandRead::None => Strand::Unstranded,
        StrandRead::Forward => Strand::Forward,
        StrandRead::Reverse => Strand::Reverse,
        StrandRead::Unknown => Strand::Unknown,
    }
}

/// The transcripts among the records that a reader hands over.
fn transcripts_of(
    records: impl Iterator<Item = std::io::Result<RecordBuf>>,
    options: &TranscriptParserOptions,
) -> Vec<Transcript> {
    let mut out = Vec::new();
    for record in records {
        let record = record.unwrap();
        let attributes: Vec<(String, String)> = record
            .attributes()
            .as_ref()
            .iter()
            .map(|(tag, value)| (tag.to_string(), value.as_string().unwrap().to_string()))
            .collect();
        if let Ok(transcript) = transcript_from_record(
            &record.ty().to_string(),
            &record.reference_sequence_name().to_string(),
            usize::from(record.start()),
            usize::from(record.end()),
            strand_of(record.strand()),
            &attributes,
            options,
        ) {
            out.push(transcript);
        }
    }
    out
}

fn read_transcripts_from_gff(text: &[u8], options: &TranscriptParserOptions) -> Vec<Transcript> {
    transcripts_of(gff::io::Reader::new(text).record_bufs(), options)
}

fn read_transcripts_from_gtf(text: &[u8], options: &TranscriptParserOptions) -> Vec<Transcript> {
    transcripts_of(gtf::io::Reader::new(text).record_bufs(), options)
}

#[test]
fn test_read_transcript() {
    let gff = "chr1\tHAVANA\tgene\t11869\t14409\t.\t+\t.\tgene_id=ENSG00000223972.5;gene_type=transcribed_unprocessed_pseudogene;gene_name=DDX11L1;level=2;hgnc_id=HGNC:37102;havana_gene=OTTHUMG00000000961.2\n\
                     chr1\tHAVANA\ttranscript\t11869\t14409\t.\t+\t.\tgene_id=ENSG00000223972.5;transcript_id=ENST00000456328.2;gene_type=transcribed_unprocessed_pseudogene;gene_name=DDX11L1;transcript_type=processed_transcript;transcript_name=DDX11L1-202;level=2;transcript_support_level=1\n\
                     chr1\tHAVANA\texon\t11869\t12227\t.\t+\t.\tgene_id=ENSG00000223972.5;transcript_id=ENST00000456328.2;gene_type=transcribed_unprocessed_pseudogene;gene_name=DDX11L1;transcript_type=processed_transcript;transcript_name=DDX11L1-202;exon_number=1\n\
                     chr1\tHAVANA\texon\t12613\t12721\t.\t+\t.\tgene_id=ENSG00000223972.5;transcript_id=ENST00000456328.2;gene_type=transcribed_unprocessed_pseudogene;gene_name=DDX11L1;transcript_type=processed_transcript;transcript_name=DDX11L1-202;exon_number=2\n\
                     chr1\tHAVANA\texon\t13221\t14409\t.\t+\t.\tgene_id=ENSG00000223972.5;transcript_id=ENST00000456328.2;gene_type=transcribed_unprocessed_pseudogene;gene_name=DDX11L1;transcript_type=processed_transcript;transcript_name=DDX11L1-202;exon_number=3";

    let gtf = "chr1\tHAVANA\tgene\t11869\t14409\t.\t+\t.\tgene_id \"ENSG00000223972.5\"; gene_type \"transcribed_unprocessed_pseudogene\"; gene_name \"DDX11L1\"; level 2; hgnc_id \"HGNC:37102\"; havana_gene \"OTTHUMG00000000961.2\";\n\
            chr1\tHAVANA\ttranscript\t11869\t14409\t.\t+\t.\tgene_id \"ENSG00000223972.5\"; transcript_id \"ENST00000456328.2\"; gene_type \"transcribed_unprocessed_pseudogene\"; gene_name \"DDX11L1\"; transcript_type \"processed_transcript\"; transcript_name \"DDX11L1-202\"; level 2; transcript_support_level \"1\"; hgnc_id \"HGNC:37102\"; tag \"basic\"; havana_gene \"OTTHUMG00000000961.2\"; havana_transcript \"OTTHUMT00000362751.1\";\n\
            chr1\tHAVANA\texon\t11869\t12227\t.\t+\t.\tgene_id \"ENSG00000223972.5\"; transcript_id \"ENST00000456328.2\"; gene_type \"transcribed_unprocessed_pseudogene\"; gene_name \"DDX11L1\"; transcript_type \"processed_transcript\"; transcript_name \"DDX11L1-202\"; exon_number 1; exon_id \"ENSE00002234944.1\"; level 2; transcript_support_level \"1\"; hgnc_id \"HGNC:37102\"; tag \"basic\"; havana_gene \"OTTHUMG00000000961.2\"; havana_transcript \"OTTHUMT00000362751.1\";\n\
            chr1\tHAVANA\texon\t12613\t12721\t.\t+\t.\tgene_id \"ENSG00000223972.5\"; transcript_id \"ENST00000456328.2\"; gene_type \"transcribed_unprocessed_pseudogene\"; gene_name \"DDX11L1\"; transcript_type \"processed_transcript\"; transcript_name \"DDX11L1-202\"; exon_number 2; exon_id \"ENSE00003582793.1\"; level 2; transcript_support_level \"1\"; hgnc_id \"HGNC:37102\"; tag \"basic\"; havana_gene \"OTTHUMG00000000961.2\"; havana_transcript \"OTTHUMT00000362751.1\";\n\
            chr1\tHAVANA\texon\t13221\t14409\t.\t+\t.\tgene_id \"ENSG00000223972.5\"; transcript_id \"ENST00000456328.2\"; gene_type \"transcribed_unprocessed_pseudogene\"; gene_name \"DDX11L1\"; transcript_type \"processed_transcript\"; transcript_name \"DDX11L1-202\"; exon_number 3; exon_id \"ENSE00002312635.1\"; level 2; transcript_support_level \"1\"; hgnc_id \"HGNC:37102\"; tag \"basic\"; havana_gene \"OTTHUMG00000000961.2\"; havana_transcript \"OTTHUMT00000362751.1\";";

    let expected = Transcript {
        transcript_name: Some("DDX11L1-202".to_string()),
        transcript_id: "ENST00000456328.2".to_string(),
        gene_name: "DDX11L1".to_string(),
        gene_id: "ENSG00000223972.5".to_string(),
        is_coding: Some(false),
        chrom: "chr1".to_string(),
        left: 11869,
        right: 14409,
        strand: Strand::Forward,
    };
    assert_eq!(read_transcripts_from_gff(gff.as_bytes(), &Default::default())[0], expected);
    assert_eq!(read_transcripts_from_gtf(gtf.as_bytes(), &Default::default())[0], expected);
}
