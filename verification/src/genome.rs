//! An index that maps the positions of a genome to whole numbers, and the
//! options for reading transcripts.
//!
//! The chromosomes stand one after another. At step 1 each base of each
//! chromosome has an index of its own; at a step `s` each chromosome is cut
//! into bins of `s` bases, the last bin of a chromosome being as short as it
//! must, and each bin has an index.

use crate::sets::{insert, put, union, views, Entry};
use indexmap::{IndexMap, IndexSet};
use std::ops::Range;
use vstd::prelude::*;

verus! {

/// The attribute keys under which an annotation record names a transcript
/// and its gene.
pub struct TranscriptParserOptions {
    pub transcript_name_key: String,
    pub transcript_id_key: String,
    pub gene_name_key: String,
    pub gene_id_key: String,
}

impl Default for TranscriptParserOptions {
    fn default() -> (r: TranscriptParserOptions)
        ensures
            r.transcript_name_key@ == "transcript_name"@,
            r.transcript_id_key@ == "transcript_id"@,
            r.gene_name_key@ == "gene_name"@,
            r.gene_id_key@ == "gene_id"@,
    {
        TranscriptParserOptions {
            transcript_name_key: "transcript_name".to_owned(),
            transcript_id_key: "transcript_id".to_owned(),
            gene_name_key: "gene_name".to_owned(),
            gene_id_key: "gene_id".to_owned(),
        }
    }
}

/// `indexmap::IndexSet`: a set that keeps its elements in the order in which
/// they arrived. Nothing is said of what is inside it.
#[verifier::external_type_specification]
#[verifier::external_body]
#[verifier::reject_recursive_types(T)]
#[verifier::reject_recursive_types(S)]
pub struct ExIndexSet<T, S>(IndexSet<T, S>);

/// `indexmap::IndexMap`: a map that keeps its keys in the order in which
/// they arrived. Nothing is said of what is inside it.
#[verifier::external_type_specification]
#[verifier::external_body]
#[verifier::reject_recursive_types(K)]
#[verifier::reject_recursive_types(V)]
#[verifier::reject_recursive_types(S)]
pub struct ExIndexMap<K, V, S>(IndexMap<K, V, S>);

/// The names that a set of names holds, in their order.
pub uninterp spec fn set_items(s: IndexSet<String>) -> Seq<Seq<char>>;

/// The names and sizes that a map of sizes holds, in their order.
pub uninterp spec fn map_items(m: IndexMap<String, u64>) -> Seq<(Seq<char>, u64)>;

/// A name and a size as the model sees them.
pub open spec fn pair_view(p: (String, u64)) -> (Seq<char>, u64) {
    (p.0@, p.1)
}

/// The views of a list of names and sizes.
pub open spec fn pair_views(v: Seq<(String, u64)>) -> Seq<(Seq<char>, u64)> {
    v.map_values(|p: (String, u64)| pair_view(p))
}

/// The names of a list of names and sizes.
pub open spec fn names_of(items: Seq<(Seq<char>, u64)>) -> Seq<Seq<char>> {
    items.map_values(|p: (Seq<char>, u64)| p.0)
}

/// The place of the name `name` among `items`, if it is there.
pub open spec fn place_of(items: Seq<(Seq<char>, u64)>, name: Seq<char>) -> Option<int>
    decreases items.len(),
{
    if items.len() == 0 {
        None
    } else {
        match place_of(items.drop_last(), name) {
            Some(i) => Some(i),
            None => if items.last().0 == name {
                Some(items.len() - 1)
            } else {
                None
            },
        }
    }
}

/// `items` after the size `size` has been given to the name `name`: a name
/// that is there keeps its place and takes the new size, a new name comes
/// last.
pub open spec fn assigned(items: Seq<(Seq<char>, u64)>, name: Seq<char>, size: u64) -> Seq<
    (Seq<char>, u64),
> {
    match place_of(items, name) {
        Some(i) => items.update(i, (name, size)),
        None => items.push((name, size)),
    }
}

/// What a map of sizes holds after the pairs of `pairs` have been given to
/// it in order.
pub open spec fn assigned_all(pairs: Seq<(Seq<char>, u64)>) -> Seq<(Seq<char>, u64)>
    decreases pairs.len(),
{
    if pairs.len() == 0 {
        Seq::empty()
    } else {
        assigned(assigned_all(pairs.drop_last()), pairs.last().0, pairs.last().1)
    }
}

/// Collects names into an `IndexSet`, by its `FromIterator`: each name is
/// inserted in turn, and a name that is already there stays where it is. So
/// the set holds the names in the order of their first occurrence.
#[verifier::external_body]
fn set_of(names: Vec<String>) -> (r: IndexSet<String>)
    ensures
        set_items(r) == union(Seq::empty(), views(names@)),
{
    names.into_iter().collect()
}

/// `IndexSet::get_index_of`: the place of a name in the set, if it is
/// there. A set holds a name once, so that place is its only one.
#[verifier::external_body]
fn set_index_of(set: &IndexSet<String>, name: &str) -> (r: Option<usize>)
    ensures
        match r {
            Some(i) => {
                &&& i < set_items(*set).len()
                &&& forall|j: int|
                    0 <= j < set_items(*set).len() ==> (#[trigger] set_items(*set)[j] == name@
                        <==> j == i)
            },
            None => !set_items(*set).contains(name@),
        },
{
    set.get_index_of(name)
}

/// `IndexSet::get_index`: the name at a place of the set, if the place is
/// within it.
#[verifier::external_body]
fn set_get_index(set: &IndexSet<String>, index: usize) -> (r: Option<&String>)
    ensures
        index < set_items(*set).len() ==> r is Some && r->0@ == set_items(*set)[index as int],
        index >= set_items(*set).len() ==> r is None,
{
    set.get_index(index)
}

/// `IndexSet::contains`: whether a name is in the set.
#[verifier::external_body]
fn set_contains(set: &IndexSet<String>, name: &str) -> (r: bool)
    ensures
        r == set_items(*set).contains(name@),
{
    set.contains(name)
}

/// `IndexSet::clone`: a set with the same names in the same order.
#[verifier::external_body]
fn set_clone(set: &IndexSet<String>) -> (r: IndexSet<String>)
    ensures
        set_items(r) == set_items(*set),
{
    set.clone()
}

/// `IndexSet::iter`: the names of the set in their order.
#[verifier::external_body]
fn set_to_vec(set: &IndexSet<String>) -> (r: Vec<String>)
    ensures
        views(r@) == set_items(*set),
{
    set.iter().cloned().collect()
}

/// Collects names and sizes into an `IndexMap`, by its `FromIterator`: each
/// pair is inserted in turn; a name that is already there keeps its place
/// and takes the new size.
#[verifier::external_body]
fn map_of(pairs: Vec<(String, u64)>) -> (r: IndexMap<String, u64>)
    ensures
        map_items(r) == assigned_all(pair_views(pairs@)),
{
    pairs.into_iter().collect()
}

/// `IndexMap::get`: the size under a name, if the name is in the map.
#[verifier::external_body]
fn map_get(map: &IndexMap<String, u64>, name: &str) -> (r: Option<u64>)
    ensures
        match r {
            Some(size) => place_of(map_items(*map), name@) is Some && map_items(*map)[place_of(
                map_items(*map),
                name@,
            )->0].1 == size,
            None => place_of(map_items(*map), name@) is None,
        },
{
    map.get(name).copied()
}

/// `IndexMap::iter`: the names and sizes of the map in their order. The
/// names of a map differ from one another.
#[verifier::external_body]
fn map_to_vec(map: &IndexMap<String, u64>) -> (r: Vec<(String, u64)>)
    ensures
        pair_views(r@) == map_items(*map),
        names_of(pair_views(r@)).no_duplicates(),
{
    map.iter().map(|(name, size)| (name.clone(), *size)).collect()
}

/// The sum of the first `n` sizes.
pub open spec fn total(items: Seq<(Seq<char>, u64)>, n: nat) -> nat
    decreases n,
{
    if n == 0 || n > items.len() {
        0
    } else {
        total(items, (n - 1) as nat) + items[n - 1].1 as nat
    }
}

/// The sum of the sizes grows with the number of sizes.
pub proof fn lemma_total_grows(items: Seq<(Seq<char>, u64)>, a: nat, b: nat)
    requires
        a <= b <= items.len(),
    ensures
        total(items, a) <= total(items, b),
    decreases b,
{
    if a < b {
        lemma_total_grows(items, a, (b - 1) as nat);
    }
}

/// The sizes of the chromosomes of a genome, by name and in order.
pub struct ChromSizes(IndexMap<String, u64>);

impl View for ChromSizes {
    type V = Seq<(Seq<char>, u64)>;

    closed spec fn view(&self) -> Seq<(Seq<char>, u64)> {
        map_items(self.0)
    }
}

impl ChromSizes {
    /// The sizes of `pairs`: a name that occurs again keeps its place and
    /// takes the later size.
    pub fn from_pairs(pairs: Vec<(String, u64)>) -> (r: ChromSizes)
        ensures
            r@ == assigned_all(pair_views(pairs@)),
    {
        ChromSizes(map_of(pairs))
    }

    /// The names and sizes, in order.
    pub fn entries(&self) -> (r: Vec<(String, u64)>)
        ensures
            pair_views(r@) == self@,
            names_of(self@).no_duplicates(),
    {
        map_to_vec(&self.0)
    }

    /// The size of the chromosome `chrom`, if it is known.
    pub fn get(&self, chrom: &str) -> (r: Option<u64>)
        ensures
            match r {
                Some(size) => place_of(self@, chrom@) is Some && self@[place_of(
                    self@,
                    chrom@,
                )->0].1 == size,
                None => place_of(self@, chrom@) is None,
            },
    {
        map_get(&self.0, chrom)
    }

    /// The sum of the sizes, unless it goes beyond what a `u64` holds.
    pub fn checked_total_size(&self) -> (r: Option<u64>)
        ensures
            match r {
                Some(sum) => sum == total(self@, self@.len()),
                None => total(self@, self@.len()) > u64::MAX,
            },
    {
        let entries = self.entries();
        let mut sum: u64 = 0;
        let mut i: usize = 0;
        while i < entries.len()
            invariant
                i <= entries.len(),
                pair_views(entries@) == self@,
                sum == total(self@, i as nat),
            decreases entries.len() - i,
        {
            let size = entries[i].1;
            assert(self@[i as int] == pair_view(entries@[i as int]));
            if size > u64::MAX - sum {
                proof {
                    lemma_total_grows(self@, (i + 1) as nat, self@.len());
                }
                return None;
            }
            sum = sum + size;
            i = i + 1;
        }
        Some(sum)
    }

    /// The sum of the sizes.
    pub fn total_size(&self) -> (r: u64)
        requires
            total(self@, self@.len()) <= u64::MAX,
        ensures
            r == total(self@, self@.len()),
    {
        match self.checked_total_size() {
            Some(sum) => sum,
            None => 0,
        }
    }
}

/// A stretch of a chromosome, from `start` up to but without `end`.
#[derive(Debug, PartialEq, Eq)]
pub struct GenomicRange {
    pub chrom: String,
    pub start: u64,
    pub end: u64,
}

/// The strand on which a transcript lies.
#[derive(Clone, Copy, Debug, PartialEq, Eq, Structural)]
pub enum Strand {
    Unstranded,
    Forward,
    Reverse,
    Unknown,
}

/// A transcript. Its ends are counted from one.
#[derive(Debug, PartialEq, Eq)]
pub struct Transcript {
    pub transcript_name: Option<String>,
    pub transcript_id: String,
    pub gene_name: String,
    pub gene_id: String,
    pub is_coding: Option<bool>,
    pub chrom: String,
    pub left: usize,
    pub right: usize,
    pub strand: Strand,
}

impl Transcript {
    /// Both ends are positions, counted from one.
    pub open spec fn wf(&self) -> bool {
        self.left >= 1 && self.right >= 1
    }

    /// Whether the strand of the transcript is known.
    pub open spec fn stranded(&self) -> bool {
        self.strand == Strand::Forward || self.strand == Strand::Reverse
    }

    /// The site at which the transcript begins, counted from zero: its left
    /// end on the forward strand, its right end on the reverse strand.
    pub fn get_tss(&self) -> (r: Option<usize>)
        requires
            self.wf(),
        ensures
            self.strand == Strand::Forward ==> r == Some((self.left - 1) as usize),
            self.strand == Strand::Reverse ==> r == Some((self.right - 1) as usize),
            !self.stranded() ==> r is None,
    {
        match self.strand {
            Strand::Forward => Some(self.left - 1),
            Strand::Reverse => Some(self.right - 1),
            _ => None,
        }
    }
}

/// Why a record gives no transcript.
#[derive(Debug, PartialEq, Eq)]
pub enum RecordError {
    /// The record is of another kind than `transcript`.
    NotATranscript,
    /// The record lacks the attribute with this key.
    MissingAttribute(String),
}

/// The value of the last of the first `n` attributes that has the key
/// `key`.
pub open spec fn attribute_of(attributes: Seq<(String, String)>, key: Seq<char>, n: nat) -> Option<
    Seq<char>,
>
    decreases n,
{
    if n == 0 || n > attributes.len() {
        None
    } else if attributes[n - 1].0@ == key {
        Some(attributes[n - 1].1@)
    } else {
        attribute_of(attributes, key, (n - 1) as nat)
    }
}

/// The value of the attribute with the key `key`; where the key occurs more
/// than once, the last value.
pub fn attribute(attributes: &Vec<(String, String)>, key: &String) -> (r: Option<String>)
    ensures
        match r {
            Some(v) => attribute_of(attributes@, key@, attributes.len() as nat) == Some(v@),
            None => attribute_of(attributes@, key@, attributes.len() as nat) is None,
        },
{
    let mut i: usize = attributes.len();
    while i > 0
        invariant
            i <= attributes.len(),
            attribute_of(attributes@, key@, attributes.len() as nat) == attribute_of(
                attributes@,
                key@,
                i as nat,
            ),
        decreases i,
    {
        if attributes[i - 1].0 == *key {
            return Some(attributes[i - 1].1.clone());
        }
        i = i - 1;
    }
    None
}

/// What a record must be for a transcript to be read from it.
pub open spec fn record_error(
    kind: Seq<char>,
    attributes: Seq<(String, String)>,
    options: TranscriptParserOptions,
) -> Option<RecordError> {
    let n = attributes.len();
    if kind != "transcript"@ {
        Some(RecordError::NotATranscript)
    } else if attribute_of(attributes, options.transcript_id_key@, n) is None {
        Some(RecordError::MissingAttribute(options.transcript_id_key))
    } else if attribute_of(attributes, options.gene_name_key@, n) is None {
        Some(RecordError::MissingAttribute(options.gene_name_key))
    } else if attribute_of(attributes, options.gene_id_key@, n) is None {
        Some(RecordError::MissingAttribute(options.gene_id_key))
    } else {
        None
    }
}

/// Reads a transcript from a record of an annotation: its kind, the name of
/// its sequence, its ends, its strand and its attributes. The keys of
/// `options` say which attributes name the transcript and its gene; a
/// transcript is coding where its type is `protein_coding`.
pub fn transcript_from_record(
    kind: &str,
    chrom: &str,
    left: usize,
    right: usize,
    strand: Strand,
    attributes: &Vec<(String, String)>,
    options: &TranscriptParserOptions,
) -> (r: Result<Transcript, RecordError>)
    ensures
        match r {
            Ok(t) => {
                let n = attributes.len() as nat;
                &&& record_error(kind@, attributes@, *options) is None
                &&& t.chrom@ == chrom@
                &&& t.left == left
                &&& t.right == right
                &&& t.strand == strand
                &&& Some(t.transcript_id@) == attribute_of(
                    attributes@,
                    options.transcript_id_key@,
                    n,
                )
                &&& Some(t.gene_name@) == attribute_of(attributes@, options.gene_name_key@, n)
                &&& Some(t.gene_id@) == attribute_of(attributes@, options.gene_id_key@, n)
                &&& match t.transcript_name {
                    Some(name) => Some(name@) == attribute_of(
                        attributes@,
                        options.transcript_name_key@,
                        n,
                    ),
                    None => attribute_of(attributes@, options.transcript_name_key@, n) is None,
                }
                &&& match t.is_coding {
                    Some(coding) => attribute_of(attributes@, "transcript_type"@, n) is Some
                        && coding == (attribute_of(attributes@, "transcript_type"@, n)
                        == Some("protein_coding"@)),
                    None => attribute_of(attributes@, "transcript_type"@, n) is None,
                }
            },
            Err(RecordError::NotATranscript) => record_error(kind@, attributes@, *options)
                == Some(RecordError::NotATranscript),
            Err(RecordError::MissingAttribute(key)) => record_error(kind@, attributes@, *options)
                matches Some(RecordError::MissingAttribute(k)) && k@ == key@,
        },
{
    if kind.to_owned() != "transcript".to_owned() {
        return Err(RecordError::NotATranscript);
    }
    let transcript_id = match attribute(attributes, &options.transcript_id_key) {
        Some(v) => v,
        None => {
            return Err(RecordError::MissingAttribute(options.transcript_id_key.clone()));
        },
    };
    let gene_name = match attribute(attributes, &options.gene_name_key) {
        Some(v) => v,
        None => {
            return Err(RecordError::MissingAttribute(options.gene_name_key.clone()));
        },
    };
    let gene_id = match attribute(attributes, &options.gene_id_key) {
        Some(v) => v,
        None => {
            return Err(RecordError::MissingAttribute(options.gene_id_key.clone()));
        },
    };
    let transcript_name = attribute(attributes, &options.transcript_name_key);
    let is_coding = match attribute(attributes, &"transcript_type".to_owned()) {
        Some(kind) => Some(kind == "protein_coding".to_owned()),
        None => None,
    };
    Ok(
        Transcript {
            transcript_name,
            transcript_id,
            gene_name,
            gene_id,
            is_coding,
            chrom: chrom.to_owned(),
            left,
            right,
            strand,
        },
    )
}

/// The difference of two numbers, or zero where the second is larger.
pub open spec fn minus(a: int, b: int) -> int {
    if a >= b {
        a - b
    } else {
        0
    }
}

/// Where the promoter of a transcript begins, counted from zero.
pub open spec fn promoter_start(t: Transcript, upstream: u64, downstream: u64, body: bool) -> int {
    let left = t.left - 1;
    let right = t.right - 1;
    if t.strand == Strand::Forward {
        minus(left, upstream as int)
    } else {
        minus(if body {
            left
        } else {
            right
        }, downstream as int)
    }
}

/// Where the promoter of a transcript ends, counted from zero.
pub open spec fn promoter_end(t: Transcript, upstream: u64, downstream: u64, body: bool) -> int {
    let left = t.left - 1;
    let right = t.right - 1;
    if t.strand == Strand::Forward {
        downstream + if body {
            right
        } else {
            left
        }
    } else {
        right + upstream
    }
}

/// The promoters of transcripts.
pub struct Promoters {
    pub regions: Vec<GenomicRange>,
    pub transcripts: Vec<Transcript>,
}

impl Promoters {
    /// The promoters of `transcripts`: for each the stretch from `upstream`
    /// bases before the site at which it begins to `downstream` bases after
    /// it, in the direction of its strand; with `include_gene_body` the
    /// stretch reaches to the far end of the transcript.
    pub fn new(
        transcripts: Vec<Transcript>,
        upstream: u64,
        downstream: u64,
        include_gene_body: bool,
    ) -> (r: Promoters)
        requires
            forall|i: int|
                0 <= i < transcripts.len() ==> (#[trigger] transcripts[i]).wf()
                    && transcripts[i].stranded() && promoter_end(
                    transcripts[i],
                    upstream,
                    downstream,
                    include_gene_body,
                ) <= u64::MAX,
        ensures
            r.transcripts == transcripts,
            r.regions.len() == transcripts.len(),
            forall|i: int|
                0 <= i < transcripts.len() ==> {
                    &&& (#[trigger] r.regions[i]).chrom@ == transcripts[i].chrom@
                    &&& r.regions[i].start == promoter_start(
                        transcripts[i],
                        upstream,
                        downstream,
                        include_gene_body,
                    )
                    &&& r.regions[i].end == promoter_end(
                        transcripts[i],
                        upstream,
                        downstream,
                        include_gene_body,
                    )
                },
    {
        let mut regions: Vec<GenomicRange> = Vec::new();
        let mut i: usize = 0;
        while i < transcripts.len()
            invariant
                i <= transcripts.len(),
                regions.len() == i,
                forall|k: int|
                    0 <= k < transcripts.len() ==> (#[trigger] transcripts[k]).wf()
                        && transcripts[k].stranded() && promoter_end(
                        transcripts[k],
                        upstream,
                        downstream,
                        include_gene_body,
                    ) <= u64::MAX,
                forall|k: int|
                    0 <= k < i ==> {
                        &&& (#[trigger] regions[k]).chrom@ == transcripts[k].chrom@
                        &&& regions[k].start == promoter_start(
                            transcripts[k],
                            upstream,
                            downstream,
                            include_gene_body,
                        )
                        &&& regions[k].end == promoter_end(
                            transcripts[k],
                            upstream,
                            downstream,
                            include_gene_body,
                        )
                    },
            decreases transcripts.len() - i,
        {
            let t = &transcripts[i];
            assert(transcripts[i as int].wf());
            let left = (t.left - 1) as u64;
            let right = (t.right - 1) as u64;
            let (start, end) = match t.strand {
                Strand::Forward => (
                    left.saturating_sub(upstream),
                    downstream + (if include_gene_body {
                        right
                    } else {
                        left
                    }),
                ),
                _ => (
                    (if include_gene_body {
                        left
                    } else {
                        right
                    }).saturating_sub(downstream),
                    right + upstream,
                ),
            };
            regions.push(GenomicRange { chrom: t.chrom.clone(), start, end });
            i = i + 1;
        }
        Promoters { regions, transcripts }
    }

    /// The names of the genes of the transcripts, in order.
    pub fn gene_names(&self) -> (r: Vec<String>)
        ensures
            r.len() == self.transcripts.len(),
            forall|i: int|
                0 <= i < r.len() ==> (#[trigger] r[i])@ == self.transcripts[i].gene_name@,
    {
        let mut out: Vec<String> = Vec::new();
        let mut i: usize = 0;
        while i < self.transcripts.len()
            invariant
                i <= self.transcripts.len(),
                out.len() == i,
                forall|k: int|
                    0 <= k < i ==> (#[trigger] out[k])@ == self.transcripts[k].gene_name@,
            decreases self.transcripts.len() - i,
        {
            out.push(self.transcripts[i].gene_name.clone());
            i = i + 1;
        }
        out
    }
}

impl Entry for String {
    fn same(&self, other: &String) -> (r: bool) {
        *self == *other
    }

    fn copy(&self) -> (r: String) {
        self.clone()
    }
}

/// The place of the name `name` in `genes`.
fn gene_place(genes: &Vec<String>, name: &String) -> (r: usize)
    requires
        views(genes@).contains(name@),
    ensures
        r < genes.len(),
        genes[r as int]@ == name@,
{
    let mut i: usize = 0;
    while i < genes.len()
        invariant
            i <= genes.len(),
            views(genes@).contains(name@),
            forall|j: int| 0 <= j < i ==> genes[j]@ != name@,
        decreases genes.len() - i,
    {
        if genes[i] == *name {
            return i;
        }
        i = i + 1;
    }
    proof {
        let j = choose|j: int| 0 <= j < views(genes@).len() && views(genes@)[j] == name@;
        assert(genes[j]@ == name@);
    }
    0
}

/// The genes of a list of gene names: the names without their repetitions,
/// in the order in which they first occur, and for each name of the list the
/// place of its gene.
pub fn gene_index(names: &Vec<String>) -> (r: (Vec<String>, Vec<usize>))
    ensures
        views(r.0@) == union(Seq::empty(), views(names@)),
        r.1.len() == names.len(),
        forall|i: int|
            0 <= i < names.len() ==> (#[trigger] r.1[i]) < r.0.len() && r.0[r.1[i] as int]@
                == names[i]@,
{
    let mut genes: Vec<String> = Vec::new();
    let mut gene_of: Vec<usize> = Vec::new();
    assert(views(genes@) =~= Seq::<Seq<char>>::empty());
    let mut i: usize = 0;
    while i < names.len()
        invariant
            i <= names.len(),
            gene_of.len() == i,
            views(genes@) == union(Seq::empty(), views(names@).take(i as int)),
            forall|k: int|
                0 <= k < i ==> (#[trigger] gene_of[k]) < genes.len() && genes[gene_of[k] as int]@
                    == names[k]@,
        decreases names.len() - i,
    {
        let ghost before = genes@;
        put(&mut genes, names[i].clone());
        proof {
            let all = views(names@);
            assert(all.take(i + 1).drop_last() == all.take(i as int));
            assert(all.take(i + 1).last() == names[i as int]@);
            let grown = insert(views(before), names[i as int]@);
            assert(views(genes@) == grown);
            assert(grown.contains(names[i as int]@)) by {
                if !views(before).contains(names[i as int]@) {
                    assert(grown[views(before).len() as int] == names[i as int]@);
                }
            }
            assert forall|k: int| 0 <= k < i implies (#[trigger] gene_of[k]) < genes.len()
                && genes[gene_of[k] as int]@ == names[k]@ by {
                let at = gene_of[k] as int;
                assert(views(genes@)[at] == views(before)[at]);
            }
        }
        let place = gene_place(&genes, &names[i]);
        gene_of.push(place);
        i = i + 1;
    }
    assert(views(names@).take(names.len() as int) == views(names@));
    (genes, gene_of)
}

/// The greatest count among the first `n` counts that belong to the gene
/// `gene`, if there is one. A count names a transcript, and `gene_of` says
/// which gene each transcript belongs to.
pub open spec fn gene_max(counts: Seq<(usize, u32)>, gene_of: Seq<usize>, gene: int, n: nat)
    -> Option<u32>
    decreases n,
{
    if n == 0 || n > counts.len() {
        None
    } else {
        let rest = gene_max(counts, gene_of, gene, (n - 1) as nat);
        let (k, v) = counts[n - 1];
        if gene_of[k as int] == gene {
            match rest {
                Some(m) => if m < v {
                    Some(v)
                } else {
                    Some(m)
                },
                None => Some(v),
            }
        } else {
            rest
        }
    }
}

/// The genes among the first `n` that have a count, each with its greatest
/// count, in order.
pub open spec fn counted(maxes: Seq<Option<u32>>, n: nat) -> Seq<(usize, u32)>
    decreases n,
{
    if n == 0 || n > maxes.len() {
        Seq::empty()
    } else {
        match maxes[n - 1] {
            Some(m) => counted(maxes, (n - 1) as nat).push(((n - 1) as usize, m)),
            None => counted(maxes, (n - 1) as nat),
        }
    }
}

/// The counts of genes from the counts of their transcripts: each gene that
/// has a counted transcript, with the greatest of the counts of its
/// transcripts, in the order of the genes.
pub fn gene_counts(counts: &Vec<(usize, u32)>, gene_of: &Vec<usize>, genes: usize) -> (r: Vec<
    (usize, u32),
>)
    requires
        forall|i: int| 0 <= i < counts.len() ==> (#[trigger] counts[i]).0 < gene_of.len(),
        forall|k: int| 0 <= k < gene_of.len() ==> gene_of[k] < genes,
    ensures
        r@ == counted(
            Seq::new(genes as nat, |g: int| gene_max(counts@, gene_of@, g, counts.len() as nat)),
            genes as nat,
        ),
{
    let mut maxes: Vec<Option<u32>> = Vec::new();
    let mut g: usize = 0;
    while g < genes
        invariant
            g <= genes,
            maxes.len() == g,
            forall|a: int|
                0 <= a < g ==> (#[trigger] maxes[a]) == gene_max(counts@, gene_of@, a, 0),
        decreases genes - g,
    {
        maxes.push(None);
        g = g + 1;
    }
    let mut i: usize = 0;
    while i < counts.len()
        invariant
            i <= counts.len(),
            maxes.len() == genes,
            forall|j: int| 0 <= j < counts.len() ==> (#[trigger] counts[j]).0 < gene_of.len(),
            forall|k: int| 0 <= k < gene_of.len() ==> gene_of[k] < genes,
            forall|a: int|
                0 <= a < genes ==> (#[trigger] maxes[a]) == gene_max(
                    counts@,
                    gene_of@,
                    a,
                    i as nat,
                ),
        decreases counts.len() - i,
    {
        let (k, v) = counts[i];
        assert(counts[i as int].0 < gene_of.len());
        let gene = gene_of[k];
        let next = match maxes[gene] {
            Some(m) => if m < v {
                Some(v)
            } else {
                Some(m)
            },
            None => Some(v),
        };
        maxes.set(gene, next);
        i = i + 1;
    }
    let ghost full = Seq::new(
        genes as nat,
        |a: int| gene_max(counts@, gene_of@, a, counts.len() as nat),
    );
    assert(maxes@ =~= full);
    let mut out: Vec<(usize, u32)> = Vec::new();
    let mut a: usize = 0;
    while a < genes
        invariant
            a <= genes,
            maxes.len() == genes,
            out@ == counted(maxes@, a as nat),
        decreases genes - a,
    {
        match maxes[a] {
            Some(m) => {
                out.push((a, m));
            },
            None => {},
        }
        a = a + 1;
    }
    out
}

/// The number of bins of `step` bases that `length` bases take.
pub open spec fn bins_of(length: int, step: int) -> int {
    (length + step - 1) / step
}

/// The entry before the place `i` of a list of sums: zero before the first.
pub open spec fn before(accum: Seq<u64>, i: int) -> int {
    if i <= 0 {
        0
    } else {
        accum[i - 1] as int
    }
}

/// Whether a list of sums never falls.
pub open spec fn rising(accum: Seq<u64>) -> bool {
    forall|i: int, j: int| 0 <= i <= j < accum.len() ==> accum[i] <= accum[j]
}

/// The place of the first sum that lies above `x`: as many as the sums that
/// do not.
pub open spec fn place_above(accum: Seq<u64>, x: u64, k: int) -> bool {
    &&& 0 <= k <= accum.len()
    &&& forall|j: int| 0 <= j < k ==> accum[j] <= x
    &&& k < accum.len() ==> accum[k] > x
}

/// Finds the place of the first sum above `x` by halving.
pub fn locate(accum: &Vec<u64>, x: u64) -> (k: usize)
    requires
        rising(accum@),
    ensures
        place_above(accum@, x, k as int),
{
    let mut low: usize = 0;
    let mut high: usize = accum.len();
    while low < high
        invariant
            low <= high <= accum.len(),
            rising(accum@),
            forall|j: int| 0 <= j < low ==> accum[j] <= x,
            high < accum.len() ==> accum[high as int] > x,
        decreases high - low,
    {
        let mid: usize = low + (high - low) / 2;
        if accum[mid] <= x {
            assert forall|j: int| 0 <= j < mid + 1 implies accum[j] <= x by {
                assert(accum[j] <= accum[mid as int]);
            }
            low = mid + 1;
        } else {
            high = mid;
        }
    }
    low
}

proof fn lemma_bins(length: int, step: int)
    requires
        length >= 0,
        step >= 1,
    ensures
        0 <= bins_of(length, step) <= length,
        (bins_of(length, step) - 1) * step < length || length == 0,
        bins_of(length, step) * step >= length,
        length > 0 ==> bins_of(length, step) >= 1,
{
    assert(0 <= bins_of(length, step) <= length && ((bins_of(length, step) - 1) * step < length
        || length == 0) && bins_of(length, step) * step >= length && (length > 0 ==> bins_of(
        length,
        step,
    ) >= 1)) by (nonlinear_arith)
        requires
            length >= 0,
            step >= 1,
            bins_of(length, step) == (length + step - 1) / step,
    ;
}

/// An index over the positions of a genome.
pub struct GenomeBaseIndex {
    chroms: IndexSet<String>,
    base_accum_len: Vec<u64>,
    binned_accum_len: Vec<u64>,
    step: usize,
}

impl GenomeBaseIndex {
    /// The names of the chromosomes, in order.
    pub closed spec fn names(&self) -> Seq<Seq<char>> {
        set_items(self.chroms)
    }

    /// The sums of the lengths of the chromosomes, in bases.
    pub closed spec fn base(&self) -> Seq<u64> {
        self.base_accum_len@
    }

    /// The sums of the lengths of the chromosomes, in bins.
    pub closed spec fn binned(&self) -> Seq<u64> {
        self.binned_accum_len@
    }

    /// The number of bases in a bin.
    pub closed spec fn spec_step(&self) -> int {
        self.step as int
    }

    /// The length of the chromosome at the place `i`, in bases.
    pub open spec fn chrom_len(&self, i: int) -> int {
        self.base()[i] - before(self.base(), i)
    }

    /// The names of the chromosomes differ; every chromosome has its two
    /// sums; the sums never fall; there is at least one base in a bin; each
    /// chromosome has as many bins as its length takes; and the machine's
    /// indices reach every base.
    pub open spec fn wf(&self) -> bool {
        &&& self.spec_step() >= 1
        &&& self.names().no_duplicates()
        &&& self.base().len() == self.names().len()
        &&& self.binned().len() == self.names().len()
        &&& rising(self.base())
        &&& rising(self.binned())
        &&& forall|i: int|
            0 <= i < self.names().len() ==> #[trigger] self.binned()[i] == before(self.binned(), i)
                + bins_of(self.chrom_len(i), self.spec_step())
        &&& forall|i: int|
            0 <= i < self.names().len() ==> self.binned()[i] <= #[trigger] self.base()[i]
                <= usize::MAX
    }

    /// The number of indices.
    pub open spec fn spec_len(&self) -> int {
        before(self.binned(), self.binned().len() as int)
    }

    /// The place of the chromosome that holds the index `pos`.
    pub open spec fn holds(&self, pos: int, k: int) -> bool {
        &&& 0 <= k < self.names().len()
        &&& before(self.binned(), k) <= pos < self.binned()[k]
    }

    /// The index for the chromosomes of `chrom_sizes`, at step 1. `None`
    /// where the genome is longer than the machine's indices reach.
    pub fn new(chrom_sizes: &ChromSizes) -> (r: Option<GenomeBaseIndex>)
        ensures
            r is Some <==> total(chrom_sizes@, chrom_sizes@.len()) <= usize::MAX,
            r is Some ==> {
                let index = r->0;
                &&& index.wf()
                &&& index.spec_step() == 1
                &&& index.names() == names_of(chrom_sizes@)
                &&& forall|i: int|
                    0 <= i < chrom_sizes@.len() ==> #[trigger] index.base()[i] == total(
                        chrom_sizes@,
                        (i + 1) as nat,
                    )
            },
    {
        let entries = chrom_sizes.entries();
        let mut names: Vec<String> = Vec::new();
        let mut accum: Vec<u64> = Vec::new();
        let mut acc: u64 = 0;
        let mut i: usize = 0;
        while i < entries.len()
            invariant
                i <= entries.len(),
                pair_views(entries@) == chrom_sizes@,
                names.len() == i,
                accum.len() == i,
                acc == total(chrom_sizes@, i as nat),
                acc <= usize::MAX,
                views(names@) == names_of(chrom_sizes@).take(i as int),
                forall|j: int| 0 <= j < i ==> #[trigger] accum[j] == total(
                    chrom_sizes@,
                    (j + 1) as nat,
                ),
                forall|j: int| 0 <= j < i ==> (#[trigger] accum[j]) <= usize::MAX,
            decreases entries.len() - i,
        {
            let size = entries[i].1;
            assert(chrom_sizes@[i as int] == pair_view(entries@[i as int]));
            if size > u64::MAX - acc || acc + size > usize::MAX as u64 {
                proof {
                    lemma_total_grows(chrom_sizes@, (i + 1) as nat, chrom_sizes@.len());
                }
                return None;
            }
            acc = acc + size;
            accum.push(acc);
            names.push(entries[i].0.clone());
            assert(views(names@) =~= names_of(chrom_sizes@).take(i + 1));
            i = i + 1;
        }
        assert(names_of(chrom_sizes@).take(entries.len() as int) =~= names_of(chrom_sizes@));
        let ghost listed = views(names@);
        let chroms = set_of(names);
        let binned = accum.clone();
        proof {
            lemma_distinct_stays(listed);
            assert(binned@ =~= accum@);
            assert forall|a: int, b: int| 0 <= a <= b < accum.len() implies accum[a]
                <= accum[b] by {
                lemma_total_grows(chrom_sizes@, (a + 1) as nat, (b + 1) as nat);
            }
            assert forall|k: int| 0 <= k < accum.len() implies #[trigger] binned[k] == before(
                binned@,
                k,
            ) + bins_of(accum[k] - before(accum@, k), 1) by {
                if k > 0 {
                    assert(accum[k - 1] == total(chrom_sizes@, k as nat));
                }
            }
        }
        Some(
            GenomeBaseIndex {
                chroms,
                base_accum_len: accum,
                binned_accum_len: binned,
                step: 1,
            },
        )
    }

    /// The number of indices.
    pub fn len(&self) -> (r: usize)
        requires
            self.wf(),
        ensures
            r == self.spec_len(),
    {
        let n = self.binned_accum_len.len();
        if n == 0 {
            0
        } else {
            self.binned_accum_len[n - 1] as usize
        }
    }

    /// The indices of the chromosome `chr`, if the index knows it.
    pub fn get_range(&self, chr: &str) -> (r: Option<Range<usize>>)
        requires
            self.wf(),
        ensures
            r is Some <==> self.names().contains(chr@),
            r is Some ==> exists|i: int|
                0 <= i < self.names().len() && self.names()[i] == chr@ && r->0.start == before(
                    self.binned(),
                    i,
                ) && r->0.end == self.binned()[i],
    {
        match set_index_of(&self.chroms, chr) {
            Some(i) => {
                assert(self.names()[i as int] == chr@);
                assert(i > 0 ==> self.binned()[i - 1] <= self.base()[i - 1]);
                let end = self.binned_accum_len[i];
                let start = if i == 0 {
                    0
                } else {
                    self.binned_accum_len[i - 1]
                };
                Some(start as usize..end as usize)
            },
            None => None,
        }
    }

    /// The names and lengths of the chromosomes, in order.
    pub fn chrom_sizes(&self) -> (r: Vec<(String, u64)>)
        requires
            self.wf(),
        ensures
            r.len() == self.names().len(),
            forall|i: int|
                0 <= i < r.len() ==> (#[trigger] r[i]).0@ == self.names()[i] && r[i].1
                    == self.chrom_len(i),
    {
        let names = set_to_vec(&self.chroms);
        let mut out: Vec<(String, u64)> = Vec::new();
        let mut prev: u64 = 0;
        let mut i: usize = 0;
        while i < names.len()
            invariant
                i <= names.len(),
                self.wf(),
                views(names@) == self.names(),
                out.len() == i,
                prev == before(self.base(), i as int),
                forall|j: int|
                    0 <= j < i ==> (#[trigger] out[j]).0@ == self.names()[j] && out[j].1
                        == self.chrom_len(j),
            decreases names.len() - i,
        {
            let acc = self.base_accum_len[i];
            assert(i > 0 ==> self.base()[i - 1] <= self.base()[i as int]);
            let length = acc - prev;
            prev = acc;
            assert(views(names@)[i as int] == names@[i as int]@);
            out.push((names[i].clone(), length));
            i = i + 1;
        }
        out
    }

    /// Whether the index knows the chromosome `chrom`.
    pub fn contain_chrom(&self, chrom: &str) -> (r: bool)
        ensures
            r == self.names().contains(chrom@),
    {
        set_contains(&self.chroms, chrom)
    }

    /// The index over the same chromosomes at the step `s`.
    pub fn with_step(&self, s: usize) -> (r: GenomeBaseIndex)
        requires
            self.wf(),
            s >= 1,
        ensures
            r.wf(),
            r.spec_step() == s,
            r.names() == self.names(),
            r.base() == self.base(),
    {
        let n = self.base_accum_len.len();
        let mut binned: Vec<u64> = Vec::new();
        let mut prev: u64 = 0;
        let mut low: u64 = 0;
        let mut i: usize = 0;
        while i < n
            invariant
                i <= n,
                n == self.base().len(),
                s >= 1,
                rising(self.base()),
                binned.len() == i,
                prev == before(self.base(), i as int),
                low == before(binned@, i as int),
                low <= prev,
                rising(binned@),
                forall|j: int|
                    0 <= j < i ==> #[trigger] binned[j] == before(binned@, j) + bins_of(
                        self.chrom_len(j),
                        s as int,
                    ),
                forall|j: int| 0 <= j < i ==> binned[j] <= #[trigger] self.base()[j],
                forall|j: int| 0 <= j < n ==> (#[trigger] self.base()[j]) <= usize::MAX,
            decreases n - i,
        {
            let acc = self.base_accum_len[i];
            assert(i > 0 ==> self.base()[i - 1] <= self.base()[i as int]);
            let length = acc - prev;
            proof {
                lemma_bins(length as int, s as int);
            }
            let whole = length / (s as u64);
            assert(length % (s as u64) != 0 ==> whole < length) by (nonlinear_arith)
                requires
                    s >= 1,
                    whole == length / (s as u64),
            ;
            let bins = if length % (s as u64) == 0 {
                whole
            } else {
                whole + 1
            };
            assert(bins == bins_of(length as int, s as int)) by (nonlinear_arith)
                requires
                    s >= 1,
                    length >= 0,
                    whole == length / (s as u64),
                    bins == if length % (s as u64) == 0 {
                        whole
                    } else {
                        (whole + 1) as u64
                    },
                    bins_of(length as int, s as int) == (length + s - 1) / (s as int),
            ;
            let ghost old_binned = binned@;
            low = low + bins;
            prev = acc;
            binned.push(low);
            proof {
                assert forall|j: int| 0 <= j < i + 1 implies #[trigger] binned[j] == before(
                    binned@,
                    j,
                ) + bins_of(self.chrom_len(j), s as int) by {
                    if j < i {
                        assert(binned[j] == old_binned[j]);
                        assert(before(binned@, j) == before(old_binned, j));
                    }
                }
                assert forall|a: int, b: int| 0 <= a <= b < binned.len() implies binned[a]
                    <= binned[b] by {
                    if b < i {
                        assert(old_binned[a] <= old_binned[b]);
                    } else if a < i {
                        assert(old_binned[a] <= old_binned[i - 1]);
                    }
                }
            }
            i = i + 1;
        }
        GenomeBaseIndex {
            chroms: set_clone(&self.chroms),
            base_accum_len: self.base_accum_len.clone(),
            binned_accum_len: binned,
            step: s,
        }
    }

    /// The index of the position `pos` of the chromosome `chrom`, if the
    /// index knows the chromosome and the position lies within it.
    pub fn position_rev(&self, chrom: &str, pos: u64) -> (r: Option<usize>)
        requires
            self.wf(),
        ensures
            r is Some <==> exists|i: int|
                0 <= i < self.names().len() && self.names()[i] == chrom@ && pos < self.chrom_len(i),
            r is Some ==> exists|i: int|
                0 <= i < self.names().len() && self.names()[i] == chrom@ && r->0 == before(
                    self.binned(),
                    i,
                ) + pos as int / self.spec_step() && r->0 < self.binned()[i],
    {
        let found = set_index_of(&self.chroms, chrom);
        match found {
            Some(i) => {
                assert(self.names()[i as int] == chrom@);
                assert(i > 0 ==> self.base()[i - 1] <= self.base()[i as int]);
                assert(i > 0 ==> self.binned()[i - 1] <= self.base()[i - 1]);
                let size = if i == 0 {
                    self.base_accum_len[i]
                } else {
                    self.base_accum_len[i] - self.base_accum_len[i - 1]
                };
                if pos >= size {
                    return None;
                }
                let offset = (pos as usize) / self.step;
                let start = if i == 0 {
                    0
                } else {
                    self.binned_accum_len[i - 1] as usize
                };
                proof {
                    let length = self.chrom_len(i as int);
                    let step = self.spec_step();
                    lemma_bins(length, step);
                    assert(self.binned()[i as int] == before(self.binned(), i as int) + bins_of(
                        length,
                        step,
                    ));
                    assert(pos as int / step < bins_of(length, step)) by (nonlinear_arith)
                        requires
                            0 <= pos < length,
                            step >= 1,
                            bins_of(length, step) * step >= length,
                    ;
                }
                Some(start + offset)
            },
            None => None,
        }
    }

    /// The index of the position `pos` of the chromosome `chrom`.
    pub fn get_position_rev(&self, chrom: &str, pos: u64) -> (r: usize)
        requires
            self.wf(),
            exists|i: int|
                0 <= i < self.names().len() && self.names()[i] == chrom@ && pos < self.chrom_len(i),
        ensures
            exists|i: int|
                0 <= i < self.names().len() && self.names()[i] == chrom@ && r == before(
                    self.binned(),
                    i,
                ) + pos as int / self.spec_step() && r < self.binned()[i],
    {
        self.position_rev(chrom, pos).unwrap()
    }

    /// The place of the chromosome that holds the index `pos`.
    fn chrom_place(&self, pos: usize) -> (k: usize)
        requires
            self.wf(),
            pos < self.spec_len(),
        ensures
            self.holds(pos as int, k as int),
    {
        let k = locate(&self.binned_accum_len, pos as u64);
        assert(k < self.binned().len()) by {
            if k == self.binned().len() {
                assert(self.binned()[k - 1] <= pos);
            }
        }
        k
    }

    /// The chromosome that holds the index `pos`.
    pub fn get_chrom(&self, pos: usize) -> (r: &String)
        requires
            self.wf(),
            pos < self.spec_len(),
        ensures
            exists|k: int| self.holds(pos as int, k) && r@ == self.names()[k],
    {
        let k = self.chrom_place(pos);
        let name = set_get_index(&self.chroms, k);
        name.unwrap()
    }

    /// The chromosome that holds the index `pos`, and the position at which
    /// the bin of that index begins.
    pub fn get_position(&self, pos: usize) -> (r: (&String, u64))
        requires
            self.wf(),
            pos < self.spec_len(),
        ensures
            exists|k: int|
                self.holds(pos as int, k) && r.0@ == self.names()[k] && r.1 == (pos - before(
                    self.binned(),
                    k,
                )) * self.spec_step() && r.1 < self.chrom_len(k),
    {
        let k = self.chrom_place(pos);
        let name = set_get_index(&self.chroms, k).unwrap();
        let start = self.bin_start(pos, k);
        (name, start)
    }

    /// The position at which the bin of the index `pos` begins within the
    /// chromosome at the place `k`.
    fn bin_start(&self, pos: usize, k: usize) -> (r: u64)
        requires
            self.wf(),
            self.holds(pos as int, k as int),
        ensures
            r == (pos - before(self.binned(), k as int)) * self.spec_step(),
            r < self.chrom_len(k as int),
    {
        let prev = if k == 0 {
            0
        } else {
            self.binned_accum_len[k - 1]
        };
        let offset = pos as u64 - prev;
        proof {
            assert(k > 0 ==> self.base()[k - 1] <= self.base()[k as int]);
            let length = self.chrom_len(k as int);
            let step = self.spec_step();
            lemma_bins(length, step);
            assert(self.binned()[k as int] == before(self.binned(), k as int) + bins_of(
                length,
                step,
            ));
            assert(offset * step < length) by (nonlinear_arith)
                requires
                    0 <= offset < bins_of(length, step),
                    (bins_of(length, step) - 1) * step < length || length == 0,
                    step >= 1,
                    length >= 0,
            ;
        }
        offset * (self.step as u64)
    }

    /// The stretch of the genome that the index `pos` stands for.
    pub fn get_region(&self, pos: usize) -> (r: GenomicRange)
        requires
            self.wf(),
            pos < self.spec_len(),
        ensures
            exists|k: int|
                self.holds(pos as int, k) && r.chrom@ == self.names()[k] && r.start == (pos
                    - before(self.binned(), k)) * self.spec_step() && r.end == if r.start
                    + self.spec_step() <= self.chrom_len(k) {
                    r.start + self.spec_step()
                } else {
                    self.chrom_len(k)
                },
    {
        let k = self.chrom_place(pos);
        let name = set_get_index(&self.chroms, k).unwrap();
        let start = self.bin_start(pos, k);
        assert(k > 0 ==> self.base()[k - 1] <= self.base()[k as int]);
        let size = if k == 0 {
            self.base_accum_len[k]
        } else {
            self.base_accum_len[k] - self.base_accum_len[k - 1]
        };
        let end = if size - start < self.step as u64 {
            size
        } else {
            start + self.step as u64
        };
        GenomicRange { chrom: name.clone(), start, end }
    }

    /// The index at this step of the base with the index `pos` at step 1.
    pub fn get_coarsed_position(&self, pos: usize) -> (r: usize)
        requires
            self.wf(),
        ensures
            self.spec_step() <= 1 ==> r == pos,
            self.spec_step() > 1 ==> exists|k: int|
                place_above(self.base(), pos as u64, k) && r == before(self.binned(), k) + (pos
                    - before(self.base(), k)) / self.spec_step(),
    {
        if self.step <= 1 {
            pos
        } else {
            let i = pos as u64;
            let k = locate(&self.base_accum_len, i);
            let acc = if k == 0 {
                0
            } else {
                self.base_accum_len[k - 1]
            };
            let low = if k == 0 {
                0
            } else {
                self.binned_accum_len[k - 1]
            };
            assert(k > 0 ==> self.binned()[k - 1] <= self.base()[k - 1]);
            let within = (i - acc) / (self.step as u64);
            assert(within <= i - acc) by (nonlinear_arith)
                requires
                    within == (i - acc) / (self.step as int),
                    self.step >= 1,
                    i - acc >= 0,
            ;
            let r = low as usize + within as usize;
            assert(place_above(self.base(), pos as u64, k as int) && r == before(
                self.binned(),
                k as int,
            ) + (pos - before(self.base(), k as int)) / self.spec_step());
            r
        }
    }
}

/// Going from an index to its position and back gives the index again: the
/// position at which the bin of an index begins lies within the chromosome
/// of the index, and its own index is the one that was given.
pub proof fn lemma_position_round_trip(index: &GenomeBaseIndex, pos: int, k: int)
    requires
        index.wf(),
        index.holds(pos, k),
    ensures
        ({
            let start = (pos - before(index.binned(), k)) * index.spec_step();
            &&& 0 <= start < index.chrom_len(k)
            &&& before(index.binned(), k) + start / index.spec_step() == pos
        }),
{
    let step = index.spec_step();
    let offset = pos - before(index.binned(), k);
    let length = index.chrom_len(k);
    assert(k > 0 ==> index.base()[k - 1] <= index.base()[k]);
    lemma_bins(length, step);
    assert(index.binned()[k] == before(index.binned(), k) + bins_of(length, step));
    assert(0 <= offset * step < length && (offset * step) / step == offset) by (nonlinear_arith)
        requires
            0 <= offset < bins_of(length, step),
            (bins_of(length, step) - 1) * step < length || length == 0,
            step >= 1,
            length >= 0,
    ;
}

/// A list of names that differ from one another is the list of its names in
/// the order of their first occurrence.
proof fn lemma_distinct_stays(names: Seq<Seq<char>>)
    requires
        names.no_duplicates(),
    ensures
        union(Seq::empty(), names) == names,
    decreases names.len(),
{
    if names.len() == 0 {
    } else {
        let rest = names.drop_last();
        assert forall|i: int, j: int| 0 <= i < rest.len() && 0 <= j < rest.len() && i
            != j implies rest[i] != rest[j] by {
            assert(rest[i] == names[i] && rest[j] == names[j]);
        }
        lemma_distinct_stays(rest);
        if rest.contains(names.last()) {
            let i = choose|i: int| 0 <= i < rest.len() && rest[i] == names.last();
            assert(names[i] == names[names.len() - 1]);
        }
        assert(union(Seq::empty(), names) =~= names);
    }
}

} // verus!
