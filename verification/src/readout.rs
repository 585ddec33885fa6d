//! Records of a detector readout: the query that asks for them, and their
//! unfolding into one row for each channel.

use vstd::prelude::*;

verus! {

/// One record: a trigger length and a run counter, and for each channel
/// that fired its number and its peak.
#[derive(Debug)]
pub struct UdpTag49 {
    pub len_trigger: u16,
    pub run_counter: u64,
    pub channel: Vec<u8>,
    pub peak: Vec<u16>,
}

/// One row: trigger length, run counter, channel and peak.
pub type Row = (u16, u64, u8, u16);

/// The rows of one record: one for each channel that has a peak, in order.
pub open spec fn rows_of(tag: UdpTag49, n: nat) -> Seq<Row>
    decreases n,
{
    if n == 0 || n > tag.channel.len() || n > tag.peak.len() {
        Seq::empty()
    } else {
        rows_of(tag, (n - 1) as nat).push(
            (tag.len_trigger, tag.run_counter, tag.channel[n - 1], tag.peak[n - 1]),
        )
    }
}

/// The number of channels of a record that have a peak.
pub open spec fn pairs(tag: UdpTag49) -> nat {
    if tag.channel.len() <= tag.peak.len() {
        tag.channel.len() as nat
    } else {
        tag.peak.len() as nat
    }
}

/// The rows of the first `n` records, record after record.
pub open spec fn exploded(tags: Seq<UdpTag49>, n: nat) -> Seq<Row>
    decreases n,
{
    if n == 0 || n > tags.len() {
        Seq::empty()
    } else {
        exploded(tags, (n - 1) as nat) + rows_of(tags[n - 1], pairs(tags[n - 1]))
    }
}

/// Unfolds the records into rows: each record gives one row for each of its
/// channels that has a peak, in order.
pub fn explode(tags: &Vec<UdpTag49>) -> (r: Vec<Row>)
    ensures
        r@ == exploded(tags@, tags.len() as nat),
{
    let mut out: Vec<Row> = Vec::new();
    let mut i: usize = 0;
    while i < tags.len()
        invariant
            i <= tags.len(),
            out@ == exploded(tags@, i as nat),
        decreases tags.len() - i,
    {
        let tag = &tags[i];
        let n: usize = if tag.channel.len() <= tag.peak.len() {
            tag.channel.len()
        } else {
            tag.peak.len()
        };
        let ghost before = out@;
        let mut k: usize = 0;
        while k < n
            invariant
                k <= n,
                n == pairs(*tag),
                out@ == before + rows_of(*tag, k as nat),
            decreases n - k,
        {
            out.push((tag.len_trigger, tag.run_counter, tag.channel[k], tag.peak[k]));
            assert(out@ =~= before + rows_of(*tag, (k + 1) as nat));
            k = k + 1;
        }
        i = i + 1;
    }
    out
}

/// The text of the query for the records of the run `run_id` in the table
/// `table_name`.
pub open spec fn query_text(table_name: Seq<char>, run_id: Seq<char>) -> Seq<char> {
    "SELECT run_counter, len_trigger, channel, peak FROM "@ + table_name + " WHERE run_id = "@
        + run_id + " ORDER BY run_counter ASC"@
}

/// The query for the records of the run `run_id` in the table `table_name`,
/// in the order of their run counters.
pub fn result_query(table_name: &str, run_id: &str) -> (r: String)
    ensures
        r@ == query_text(table_name@, run_id@),
{
    let mut out = String::from_str("SELECT run_counter, len_trigger, channel, peak FROM ");
    out.append(table_name);
    out.append(" WHERE run_id = ");
    out.append(run_id);
    out.append(" ORDER BY run_counter ASC");
    out
}

/// The address of a server: host and port with a colon between them.
pub fn address(ip: &str, port: &str) -> (r: String)
    ensures
        r@ == ip@ + ":"@ + port@,
{
    let mut out = ip.to_owned();
    out.append(":");
    out.append(port);
    out
}

} // verus!
