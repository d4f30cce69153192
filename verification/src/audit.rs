//! The audit log of promotions: one entry per promotion, with the files
//! promoted, skipped and protected.
use vstd::prelude::*;

verus! {

/// The audit log.
pub struct PromotionLog {
    pub promotions: Vec<PromotionEntry>,
}

/// One promotion.
pub struct PromotionEntry {
    pub timestamp: String,
    pub source: String,
    pub destination: String,
    pub git_ref: String,
    pub promoted: Vec<FileRecord>,
    pub skipped: Vec<SkipRecord>,
    pub protected: Vec<ProtectedRecord>,
}

/// A promoted file and what was done to it.
pub struct FileRecord {
    pub path: String,
    pub action: String,
}

/// A skipped file and why.
pub struct SkipRecord {
    pub path: String,
    pub reason: String,
}

/// A protected file and why.
pub struct ProtectedRecord {
    pub path: String,
    pub reason: String,
}

impl PromotionEntry {
    /// A new entry stamped with the current time, with nothing recorded.
    pub fn new(source: String, destination: String, git_ref: String) -> (r: Self)
        ensures
            r.source == source,
            r.destination == destination,
            r.git_ref == git_ref,
            r.promoted@.len() == 0,
            r.skipped@.len() == 0,
            r.protected@.len() == 0,
    {
        PromotionEntry {
            timestamp: crate::ext::now_rfc3339(),
            source,
            destination,
            git_ref,
            promoted: Vec::new(),
            skipped: Vec::new(),
            protected: Vec::new(),
        }
    }

    /// Records a promoted file.
    pub fn add_promoted(&mut self, path: String, action: &str)
        ensures
            final(self).promoted@.len() == old(self).promoted@.len() + 1,
            final(self).promoted@.drop_last() == old(self).promoted@,
            final(self).promoted@.last().path == path,
            final(self).promoted@.last().action@ == action@,
            final(self).skipped == old(self).skipped,
            final(self).protected == old(self).protected,
            final(self).timestamp == old(self).timestamp,
            final(self).source == old(self).source,
            final(self).destination == old(self).destination,
            final(self).git_ref == old(self).git_ref,
    {
        self.promoted.push(FileRecord { path, action: crate::text::owned(action) });
        assert(self.promoted@.drop_last() =~= old(self).promoted@);
    }

    /// Records a skipped file.
    pub fn add_skipped(&mut self, path: String, reason: &str)
        ensures
            final(self).skipped@.len() == old(self).skipped@.len() + 1,
            final(self).skipped@.drop_last() == old(self).skipped@,
            final(self).skipped@.last().path == path,
            final(self).skipped@.last().reason@ == reason@,
            final(self).promoted == old(self).promoted,
            final(self).protected == old(self).protected,
            final(self).timestamp == old(self).timestamp,
            final(self).source == old(self).source,
            final(self).destination == old(self).destination,
            final(self).git_ref == old(self).git_ref,
    {
        self.skipped.push(SkipRecord { path, reason: crate::text::owned(reason) });
        assert(self.skipped@.drop_last() =~= old(self).skipped@);
    }

    /// Records a protected file.
    pub fn add_protected(&mut self, path: String, reason: &str)
        ensures
            final(self).protected@.len() == old(self).protected@.len() + 1,
            final(self).protected@.drop_last() == old(self).protected@,
            final(self).protected@.last().path == path,
            final(self).protected@.last().reason@ == reason@,
            final(self).promoted == old(self).promoted,
            final(self).skipped == old(self).skipped,
            final(self).timestamp == old(self).timestamp,
            final(self).source == old(self).source,
            final(self).destination == old(self).destination,
            final(self).git_ref == old(self).git_ref,
    {
        self.protected.push(ProtectedRecord { path, reason: crate::text::owned(reason) });
        assert(self.protected@.drop_last() =~= old(self).protected@);
    }
}

impl PromotionLog {
    /// An empty log.
    pub fn new() -> (r: Self)
        ensures
            r.promotions@.len() == 0,
    {
        PromotionLog { promotions: Vec::new() }
    }

    /// Appends an entry.
    pub fn add_entry(&mut self, entry: PromotionEntry)
        ensures
            final(self).promotions@ == old(self).promotions@.push(entry),
    {
        self.promotions.push(entry);
    }
}

} // verus!
