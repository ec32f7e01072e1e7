//! The snapshot buffer and the persister: a stable sort by timestamp, a
//! lazily emitted header row, and the rendering of each buffered snapshot
//! as one delimited text row.

use vstd::prelude::*;
use std::fmt::Write;
use crate::text::int_text;
use crate::value::{SpecValue, Value, ValueMap, encoded};

verus! {

/// The delimited text line that the csv crate produces for one record of
/// fields, including the terminating newline.
pub uninterp spec fn csv_line_of(fields: Seq<Seq<char>>) -> Seq<char>;

/// The text that chrono renders for the UTC time at the given count of
/// milliseconds since the epoch, under the given strftime format string.
pub uninterp spec fn time_text_of(millis: int, fmt: Seq<char>) -> Seq<char>;

/// Relies on csv::Writer over an in-memory buffer: one record of fields is
/// encoded with the default delimiter, quoting and `\n` terminator, and the
/// text depends on the fields alone.
#[verifier::external_body]
fn csv_line(fields: &Vec<String>) -> (r: String)
    ensures
        r@ == csv_line_of(fields.deep_view()),
{
    let mut w = csv::Writer::from_writer(Vec::new());
    let _ = w.write_record(fields.iter());
    match w.into_inner() {
        Ok(buf) => String::from_utf8(buf).unwrap_or_default(),
        Err(_) => String::new(),
    }
}

/// Relies on chrono: a UTC time built from epoch milliseconds and rendered
/// under a strftime format string depends on those two arguments alone. A
/// time outside chrono's range, or a malformed format string, renders as the
/// empty string instead of panicking.
#[verifier::external_body]
fn format_time(millis: i64, fmt: &str) -> (r: String)
    ensures
        r@ == time_text_of(millis as int, fmt@),
{
    match chrono::DateTime::<chrono::Utc>::from_timestamp_millis(millis) {
        Some(t) => {
            let mut out = String::new();
            if write!(out, "{}", t.format(fmt)).is_err() {
                out.clear();
            }
            out
        },
        None => String::new(),
    }
}

/// One buffered observation: a timestamp in milliseconds since the epoch,
/// and the flattened state at that instant.
pub struct Snapshot {
    pub ts: i64,
    pub vals: ValueMap,
}

/// The recorder's configuration: the target file, the ordered list of column
/// keys to persist, and an optional timestamp format string.
pub struct CsvRecorderConfig {
    /// Path to the target file, used by the caller that appends the rows.
    pub file_name: String,
    /// The ordered list of keys that shall be recorded.
    pub key_list: Vec<String>,
    /// Time formatting option; epoch milliseconds when absent.
    pub time_format: Option<String>,
}

/// Snapshots with this timestamp.
pub open spec fn same_ts(t: i64) -> spec_fn(Snapshot) -> bool {
    |s: Snapshot| s.ts == t
}

/// Non-decreasing timestamp order.
pub open spec fn ts_sorted(s: Seq<Snapshot>) -> bool {
    forall|i: int, j: int| 0 <= i <= j < s.len() ==> s[i].ts <= s[j].ts
}

/// The text of the timestamp column: the configured format applied to the
/// time when one is configured, else the integer millisecond count.
pub open spec fn time_field(cfg: CsvRecorderConfig, ts: i64) -> Seq<char> {
    match cfg.time_format {
        Some(f) => time_text_of(ts as int, f@),
        None => int_text(ts as int),
    }
}

/// The text of one data cell: the encoded value when the key is bound in the
/// snapshot, else the empty field.
pub open spec fn cell_text(m: Map<Seq<char>, SpecValue>, k: Seq<char>) -> Seq<char> {
    if m.contains_key(k) {
        encoded(m[k])
    } else {
        Seq::empty()
    }
}

/// The fields of one data row: the timestamp column, then one cell per
/// configured key, in schema order.
pub open spec fn row_fields(cfg: CsvRecorderConfig, s: Snapshot) -> Seq<Seq<char>> {
    seq![time_field(cfg, s.ts)] + cfg.key_list.deep_view().map_values(
        |k: Seq<char>| cell_text(s.vals@, k),
    )
}

/// The fields of the header row: `timestamp_utc`, then the configured keys.
pub open spec fn header_fields(cfg: CsvRecorderConfig) -> Seq<Seq<char>> {
    seq!["timestamp_utc"@] + cfg.key_list.deep_view()
}

/// One data row as a delimited text line.
pub open spec fn row_line(cfg: CsvRecorderConfig, s: Snapshot) -> Seq<char> {
    csv_line_of(row_fields(cfg, s))
}

/// The header row as a delimited text line.
pub open spec fn header_line(cfg: CsvRecorderConfig) -> Seq<char> {
    csv_line_of(header_fields(cfg))
}

/// Filtering a sequence without a matching element gives the empty sequence.
proof fn lemma_filter_none(s: Seq<Snapshot>, pred: spec_fn(Snapshot) -> bool)
    requires
        forall|i: int| 0 <= i < s.len() ==> !pred(s[i]),
    ensures
        s.filter(pred) =~= Seq::<Snapshot>::empty(),
    decreases s.len(),
{
    reveal_with_fuel(Seq::<Snapshot>::filter, 2);
    if s.len() > 0 {
        lemma_filter_none(s.drop_last(), pred);
    }
}

/// Filtering a singleton keeps or drops its one element.
proof fn lemma_filter_one(x: Snapshot, pred: spec_fn(Snapshot) -> bool)
    ensures
        pred(x) ==> seq![x].filter(pred) =~= seq![x],
        !pred(x) ==> seq![x].filter(pred) =~= Seq::<Snapshot>::empty(),
{
    reveal_with_fuel(Seq::<Snapshot>::filter, 2);
    assert(seq![x].drop_last() =~= Seq::<Snapshot>::empty());
    assert(Seq::<Snapshot>::empty().filter(pred) =~= Seq::<Snapshot>::empty());
}

/// Inserting a snapshot at the first position whose timestamp exceeds its
/// own keeps the sequence sorted, and keeps the relative order of snapshots
/// with any fixed timestamp.
proof fn lemma_sorted_insert_seq(pre: Seq<Snapshot>, j: int, x: Snapshot)
    requires
        ts_sorted(pre),
        0 <= j <= pre.len(),
        forall|k: int| 0 <= k < j ==> pre[k].ts <= x.ts,
        j < pre.len() ==> pre[j].ts > x.ts,
    ensures
        ts_sorted(pre.insert(j, x)),
        forall|t: i64|
            #[trigger] pre.insert(j, x).filter(same_ts(t)) =~= if x.ts == t {
                pre.filter(same_ts(t)).push(x)
            } else {
                pre.filter(same_ts(t))
            },
{
    let l = pre.take(j);
    let r = pre.skip(j);
    let post = pre.insert(j, x);
    assert(pre =~= l + r);
    assert(post =~= l + seq![x] + r);
    assert(forall|m: int| 0 <= m < r.len() ==> r[m] == pre[j + m]);
    assert forall|m: int| 0 <= m < r.len() implies #[trigger] r[m].ts > x.ts by {
        assert(pre[j].ts <= pre[j + m].ts);
    }
    assert forall|i: int, k: int| 0 <= i <= k < post.len() implies post[i].ts <= post[k].ts by {
        if i < j && k < j {
        } else if i < j {
            assert(post[i] == pre[i]);
        } else if i == j {
        } else {
            assert(post[i] == r[i - j - 1]);
        }
    }
    assert forall|t: i64|
        #[trigger] post.filter(same_ts(t)) =~= (if x.ts == t {
            pre.filter(same_ts(t)).push(x)
        } else {
            pre.filter(same_ts(t))
        }) by {
        let p = same_ts(t);
        Seq::filter_distributes_over_add(l + seq![x], r, p);
        Seq::filter_distributes_over_add(l, seq![x], p);
        Seq::filter_distributes_over_add(l, r, p);
        lemma_filter_one(x, p);
        if x.ts == t {
            lemma_filter_none(r, p);
            assert(post.filter(p) =~= l.filter(p) + seq![x]);
            assert(pre.filter(p) =~= l.filter(p));
            assert(post.filter(p) =~= pre.filter(p).push(x));
        } else {
            assert(post.filter(p) =~= l.filter(p) + r.filter(p));
        }
    }
}

/// The position at which a new snapshot is inserted: after every buffered
/// snapshot with a timestamp less than or equal to its own, which keeps the
/// sort stable.
fn insert_pos(dst: &Vec<Snapshot>, ts: i64) -> (j: usize)
    requires
        ts_sorted(dst@),
    ensures
        j <= dst@.len(),
        forall|k: int| 0 <= k < j ==> dst@[k].ts <= ts,
        j < dst@.len() ==> dst@[j as int].ts > ts,
{
    let mut j: usize = 0;
    while j < dst.len()
        invariant
            j <= dst@.len(),
            forall|k: int| 0 <= k < j ==> dst@[k].ts <= ts,
        decreases dst@.len() - j,
    {
        if dst[j].ts > ts {
            return j;
        }
        j = j + 1;
    }
    j
}

/// Inserts one snapshot into a timestamp-sorted vector, after all snapshots
/// with an equal or smaller timestamp.
fn sorted_insert(dst: &mut Vec<Snapshot>, x: Snapshot)
    requires
        ts_sorted(old(dst)@),
    ensures
        ts_sorted(final(dst)@),
        final(dst)@.len() == old(dst)@.len() + 1,
        forall|t: i64|
            #[trigger] final(dst)@.filter(same_ts(t)) =~= if x.ts == t {
                old(dst)@.filter(same_ts(t)).push(x)
            } else {
                old(dst)@.filter(same_ts(t))
            },
{
    let j = insert_pos(dst, x.ts);
    let ghost pre = dst@;
    dst.insert(j, x);
    proof {
        lemma_sorted_insert_seq(pre, j as int, x);
    }
}

/// Stable sort of the buffer by ascending timestamp: the result is ordered,
/// and snapshots with equal timestamps keep their relative insertion order.
fn sort_buffer(v: &mut Vec<Snapshot>)
    ensures
        ts_sorted(final(v)@),
        final(v)@.len() == old(v)@.len(),
        forall|t: i64|
            #[trigger] final(v)@.filter(same_ts(t)) =~= old(v)@.filter(same_ts(t)),
{
    let ghost orig = v@;
    let mut sorted: Vec<Snapshot> = Vec::new();
    proof {
        assert forall|t: i64|
            #[trigger] sorted@.filter(same_ts(t)) + v@.filter(same_ts(t)) =~= orig.filter(
                same_ts(t),
            ) by {
            assert(sorted@.filter(same_ts(t)) =~= Seq::<Snapshot>::empty());
        }
    }
    while v.len() > 0
        invariant
            ts_sorted(sorted@),
            sorted@.len() + v@.len() == orig.len(),
            forall|t: i64|
                #[trigger] sorted@.filter(same_ts(t)) + v@.filter(same_ts(t)) =~= orig.filter(
                    same_ts(t),
                ),
        decreases v@.len(),
    {
        let ghost vpre = v@;
        let ghost spre = sorted@;
        let x = v.remove(0);
        proof {
            assert(vpre =~= seq![x] + v@);
        }
        sorted_insert(&mut sorted, x);
        proof {
            assert forall|t: i64|
                #[trigger] sorted@.filter(same_ts(t)) + v@.filter(same_ts(t)) =~= orig.filter(
                    same_ts(t),
                ) by {
                let p = same_ts(t);
                Seq::filter_distributes_over_add(seq![x], v@, p);
                lemma_filter_one(x, p);
                if x.ts == t {
                    assert(sorted@.filter(p) =~= spre.filter(p).push(x));
                    assert(sorted@.filter(p) + v@.filter(p) =~= spre.filter(p) + (seq![x]
                        + v@.filter(p)));
                    assert(vpre.filter(p) =~= seq![x] + v@.filter(p));
                    assert(spre.filter(p) + vpre.filter(p) =~= orig.filter(p));
                } else {
                    assert(vpre.filter(p) =~= v@.filter(p));
                }
            }
        }
    }
    proof {
        assert forall|t: i64| #[trigger] sorted@.filter(same_ts(t)) =~= orig.filter(same_ts(t)) by {
            assert(v@.filter(same_ts(t)) =~= Seq::<Snapshot>::empty());
            assert(sorted@.filter(same_ts(t)) + v@.filter(same_ts(t)) =~= sorted@.filter(
                same_ts(t),
            ));
        }
    }
    *v = sorted;
}

/// A recorder that buffers flattened snapshots and renders them on demand as
/// delimited text rows, one batch per persist call.
pub struct CsvRecorder {
    /// Whether the header row was already rendered for this instance.
    pub created_header: bool,
    /// The buffered snapshots, in insertion order between persist calls.
    pub states: Vec<Snapshot>,
    /// The fixed configuration of this instance.
    pub cfg: CsvRecorderConfig,
}

impl CsvRecorder {
    /// Creates a recorder with an empty buffer and no header written.
    pub fn new(cfg: CsvRecorderConfig) -> (r: CsvRecorder)
        ensures
            r.cfg == cfg,
            !r.created_header,
            r.states@ == Seq::<Snapshot>::empty(),
    {
        CsvRecorder { created_header: false, states: Vec::new(), cfg }
    }

    /// Appends one snapshot to the buffer; no rendering and no other change.
    pub fn record(&mut self, time: i64, values: ValueMap)
        ensures
            final(self).states@ == old(self).states@.push(Snapshot { ts: time, vals: values }),
            final(self).cfg == old(self).cfg,
            final(self).created_header == old(self).created_header,
    {
        self.states.push(Snapshot { ts: time, vals: values });
    }

    /// Renders the buffered snapshots as delimited text lines, ready to be
    /// appended to the target file.
    ///
    /// An empty buffer is a no-op that returns `None` and changes nothing.
    /// Otherwise the buffer is stably sorted by ascending timestamp in
    /// place, a header line is rendered exactly when none was rendered
    /// before, and one line per buffered snapshot follows in sorted order.
    /// The buffer is kept until [`CsvRecorder::clear`] confirms that the
    /// lines were written, so a failed write can be retried.
    pub fn persist(&mut self) -> (r: Option<Vec<String>>)
        ensures
            final(self).cfg == old(self).cfg,
            old(self).states@.len() == 0 ==> r is None && *final(self) == *old(self),
            old(self).states@.len() > 0 ==> {
                &&& final(self).created_header
                &&& ts_sorted(final(self).states@)
                &&& final(self).states@.len() == old(self).states@.len()
                &&& forall|t: i64|
                    #[trigger] final(self).states@.filter(same_ts(t)) == old(self).states@.filter(
                        same_ts(t),
                    )
                &&& match r {
                    Some(lines) => {
                        let h: int = if old(self).created_header {
                            0
                        } else {
                            1
                        };
                        &&& lines.deep_view().len() == h + final(self).states@.len()
                        &&& (h == 1 ==> lines.deep_view()[0] == header_line(old(self).cfg))
                        &&& forall|i: int|
                            0 <= i < final(self).states@.len() ==> lines.deep_view()[h + i]
                                == row_line(old(self).cfg, final(self).states@[i])
                    },
                    None => false,
                }
            },
    {
        if self.states.len() == 0 {
            return None;
        }
        sort_buffer(&mut self.states);
        let ghost cfg0 = self.cfg;
        let mut lines: Vec<String> = Vec::new();
        let ghost h: int = if self.created_header {
            0
        } else {
            1
        };
        if !self.created_header {
            let mut fields: Vec<String> = Vec::new();
            fields.push("timestamp_utc".to_owned());
            let mut k: usize = 0;
            while k < self.cfg.key_list.len()
                invariant
                    k <= self.cfg.key_list@.len(),
                    fields.deep_view() =~= seq!["timestamp_utc"@] + self.cfg.key_list.deep_view()
                        .take(k as int),
                decreases self.cfg.key_list@.len() - k,
            {
                let ghost dpre = fields.deep_view();
                fields.push(self.cfg.key_list[k].clone());
                proof {
                    assert(fields.deep_view() =~= dpre.push(self.cfg.key_list.deep_view()[k as int]));
                    assert(fields.deep_view() =~= seq!["timestamp_utc"@]
                        + self.cfg.key_list.deep_view().take(k + 1));
                }
                k = k + 1;
            }
            proof {
                assert(self.cfg.key_list.deep_view().take(k as int) =~= self.cfg.key_list.deep_view());
                assert(fields.deep_view() =~= header_fields(cfg0));
            }
            lines.push(csv_line(&fields));
            self.created_header = true;
        }
        let n = self.states.len();
        let mut idx: usize = 0;
        while idx < n
            invariant
                idx <= n,
                n == self.states@.len(),
                self.cfg == cfg0,
                self.created_header,
                ts_sorted(self.states@),
                h == 0 || h == 1,
                lines.deep_view().len() == h + idx,
                h == 1 ==> lines.deep_view()[0] == header_line(cfg0),
                forall|i: int|
                    0 <= i < idx ==> lines.deep_view()[h + i] == row_line(cfg0, self.states@[i]),
            decreases n - idx,
        {
            let snap = &self.states[idx];
            let mut fields: Vec<String> = Vec::new();
            match &self.cfg.time_format {
                Some(f) => fields.push(format_time(snap.ts, f.as_str())),
                None => fields.push(crate::text::i64_text(snap.ts)),
            }
            proof {
                assert(fields.deep_view() =~= seq![time_field(cfg0, snap.ts)]);
            }
            let ghost cells = self.cfg.key_list.deep_view().map_values(
                |kk: Seq<char>| cell_text(snap.vals@, kk),
            );
            let mut k: usize = 0;
            while k < self.cfg.key_list.len()
                invariant
                    k <= self.cfg.key_list@.len(),
                    cells == self.cfg.key_list.deep_view().map_values(
                        |kk: Seq<char>| cell_text(snap.vals@, kk),
                    ),
                    fields.deep_view() =~= seq![time_field(cfg0, snap.ts)] + cells.take(k as int),
                    self.cfg == cfg0,
                decreases self.cfg.key_list@.len() - k,
            {
                let ghost dpre = fields.deep_view();
                let key = &self.cfg.key_list[k];
                match snap.vals.get(key) {
                    Some(v) => fields.push(v.encode()),
                    None => {
                        let empty_cell = String::new();
                        proof {
                            assert(empty_cell@ =~= Seq::<char>::empty());
                        }
                        fields.push(empty_cell);
                    },
                }
                proof {
                    assert(fields.deep_view() =~= dpre.push(cells[k as int]));
                    assert(fields.deep_view() =~= seq![time_field(cfg0, snap.ts)] + cells.take(
                        k + 1,
                    ));
                }
                k = k + 1;
            }
            proof {
                assert(cells.take(k as int) =~= cells);
                assert(fields.deep_view() =~= row_fields(cfg0, self.states@[idx as int]));
            }
            let ghost lpre = lines.deep_view();
            lines.push(csv_line(&fields));
            proof {
                assert(lines.deep_view() =~= lpre.push(row_line(cfg0, self.states@[idx as int])));
            }
            idx = idx + 1;
        }
        Some(lines)
    }

    /// Empties the buffer, once the caller has durably written the rendered
    /// lines of the preceding persist call.
    pub fn clear(&mut self)
        ensures
            final(self).states@ == Seq::<Snapshot>::empty(),
            final(self).cfg == old(self).cfg,
            final(self).created_header == old(self).created_header,
    {
        self.states.clear();
    }
}

} // verus!
