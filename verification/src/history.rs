//! Bounded, newest-first history of finished download attempts: the
//! engine prepends a record per attempt and retains only the most
//! recent ones.
use vstd::prelude::*;
use crate::models::{DownloadRecord, RecordView, opt_str_view, fresh_task_id};

verus! {

/// At most this many records are retained.
pub const HISTORY_LIMIT: usize = 100;

/// The mathematical value of a record vector: the sequence of record values.
pub open spec fn record_views(v: Seq<DownloadRecord>) -> Seq<RecordView> {
    v.map_values(|r: DownloadRecord| r@)
}

/// One append under retention: the record goes to the front and
/// everything beyond the limit falls off the end.
pub open spec fn hist_step(h: Seq<RecordView>, r: RecordView) -> Seq<RecordView> {
    (seq![r] + h).take(vstd::math::min(h.len() + 1int, HISTORY_LIMIT as int))
}

/// A whole run of appends, oldest first.
pub open spec fn hist_appended(h: Seq<RecordView>, rs: Seq<RecordView>) -> Seq<RecordView>
    decreases rs.len(),
{
    if rs.len() == 0 {
        h
    } else {
        hist_appended(hist_step(h, rs[0]), rs.drop_first())
    }
}

/// Retention: after any run of appends the history holds exactly the
/// most recent records, newest first — the last appends in reverse
/// order, then what age the limit still leaves of the older content.
pub proof fn lemma_history_retention(h: Seq<RecordView>, rs: Seq<RecordView>)
    requires
        h.len() <= HISTORY_LIMIT,
    ensures
        hist_appended(h, rs).len() == vstd::math::min(h.len() + rs.len() as int, HISTORY_LIMIT as int),
        forall|i: int|
            0 <= i < vstd::math::min(rs.len() as int, HISTORY_LIMIT as int) ==> hist_appended(
                h,
                rs,
            )[i] == rs[rs.len() - 1 - i],
        forall|i: int|
            rs.len() <= i < vstd::math::min(h.len() + rs.len() as int, HISTORY_LIMIT as int)
                ==> hist_appended(h, rs)[i] == h[i - rs.len()],
    decreases rs.len(),
{
    if rs.len() > 0 {
        let h2 = hist_step(h, rs[0]);
        let rest = rs.drop_first();
        lemma_history_retention(h2, rest);
        assert forall|i: int|
            0 <= i < vstd::math::min(rs.len() as int, HISTORY_LIMIT as int) implies hist_appended(
            h,
            rs,
        )[i] == rs[rs.len() - 1 - i] by {
            if i < vstd::math::min(rest.len() as int, HISTORY_LIMIT as int) {
                assert(hist_appended(h2, rest)[i] == rest[rest.len() - 1 - i]);
                assert(rest[rest.len() - 1 - i] == rs[rs.len() - 1 - i]);
            } else {
                assert(i == rs.len() - 1);
                assert(hist_appended(h2, rest)[i] == h2[i - rest.len()]);
                assert(h2[0] == rs[0]);
            }
        }
        assert forall|i: int|
            rs.len() <= i < vstd::math::min(h.len() + rs.len() as int, HISTORY_LIMIT as int)
            implies hist_appended(h, rs)[i] == h[i - rs.len()] by {
            assert(hist_appended(h2, rest)[i] == h2[i - rest.len()]);
            assert(h2[i - rest.len()] == h[i - rs.len()]);
        }
    }
}

/// The retained history, newest record first.
pub struct History {
    pub records: Vec<DownloadRecord>,
}

impl View for History {
    type V = Seq<RecordView>;

    open spec fn view(&self) -> Seq<RecordView> {
        record_views(self.records@)
    }
}

impl History {
    /// An empty history.
    pub fn new() -> (r: Self)
        ensures
            r@ == Seq::<RecordView>::empty(),
    {
        let r = History { records: Vec::new() };
        proof {
            assert(r@ =~= Seq::<RecordView>::empty());
        }
        r
    }

    /// Adopt records read back from storage, newest first, enforcing
    /// the retention limit on whatever was found there.
    pub fn from_records(records: Vec<DownloadRecord>) -> (r: Self)
        ensures
            record_views(records@).len() <= HISTORY_LIMIT ==> r@ == record_views(records@),
            record_views(records@).len() > HISTORY_LIMIT ==> r@ == record_views(records@).take(
                HISTORY_LIMIT as int,
            ),
    {
        let ghost orig = records@;
        let mut v = records;
        if v.len() > HISTORY_LIMIT {
            v.truncate(HISTORY_LIMIT);
            proof {
                assert(record_views(v@) =~= record_views(orig).take(HISTORY_LIMIT as int));
            }
        }
        History { records: v }
    }

    pub fn len(&self) -> (r: usize)
        ensures
            r == self@.len(),
    {
        self.records.len()
    }

    /// Record one more attempt: newest first, oldest out beyond the limit.
    pub fn add_to_history(&mut self, record: DownloadRecord)
        ensures
            final(self)@ == hist_step(old(self)@, record@),
    {
        let ghost pre = self.records@;
        let ghost rv = record@;
        self.records.insert(0, record);
        proof {
            assert(record_views(self.records@) =~= seq![rv] + record_views(pre));
        }
        if self.records.len() > HISTORY_LIMIT {
            let ghost mid = self.records@;
            self.records.truncate(HISTORY_LIMIT);
            proof {
                assert(record_views(self.records@) =~= record_views(mid).take(
                    HISTORY_LIMIT as int,
                ));
                assert(record_views(self.records@) =~= hist_step(record_views(pre), rv));
            }
        } else {
            proof {
                assert((seq![rv] + record_views(pre)).take(
                    vstd::math::min(record_views(pre).len() + 1int, HISTORY_LIMIT as int),
                ) =~= seq![rv] + record_views(pre));
            }
        }
    }

    /// A snapshot copy of the retained records, newest first.
    pub fn get_history(&self) -> (r: Vec<DownloadRecord>)
        ensures
            record_views(r@) == self@,
    {
        let r = self.records.clone();
        proof {
            assert forall|i: int| 0 <= i < r@.len() implies r@[i]@ == self.records@[i]@ by {
                assert(cloned::<DownloadRecord>(self.records@[i], r@[i]));
            }
            assert(record_views(r@) =~= self@);
        }
        r
    }

    /// Forget everything.
    pub fn clear_history(&mut self)
        ensures
            final(self)@ == Seq::<RecordView>::empty(),
    {
        self.records = Vec::new();
        proof {
            assert(self@ =~= Seq::<RecordView>::empty());
        }
    }
}

/// Relies on `chrono::Utc::now` formatted as `%Y-%m-%d %H:%M`: a wall
/// clock reading, so only its shape is promised — the year takes at
/// least four digits, the rest of the pattern is fixed, hence at least
/// sixteen characters in all.
#[verifier::external_body]
fn current_date_string() -> (r: String)
    ensures
        r@.len() >= 16,
{
    chrono::Utc::now().format("%Y-%m-%d %H:%M").to_string()
}

/// A record of one finished attempt, stamped with a fresh identifier
/// and the present date; the file size is never known at this point.
pub fn make_history_record(
    pubfile_id: String,
    title: String,
    status: String,
    account_used: String,
    download_path: String,
    error_message: Option<String>,
) -> (r: DownloadRecord)
    ensures
        r@.id.len() == 36,
        r@.pubfile_id == pubfile_id@,
        r@.title == title@,
        r@.file_size is None,
        r@.download_date.len() >= 16,
        r@.status == status@,
        r@.error_message == opt_str_view(error_message),
        r@.account_used == account_used@,
        r@.download_path == download_path@,
{
    DownloadRecord {
        id: fresh_task_id(),
        pubfile_id,
        title,
        file_size: Option::None,
        download_date: current_date_string(),
        status,
        error_message,
        account_used,
        download_path,
    }
}

} // verus!
